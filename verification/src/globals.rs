//! Constants of the program, user activity and the debug log.
use crate::drivers::graphics::deferred;
use vstd::prelude::*;
use vstd::string::*;

verus! {

pub const HELP_MSG: &'static str = r#"meowpdf kitty terminal document viewer

Usage: meowpdf <file>

Global options:
-h, --help          Print this usage information.
-v, --version       Print the current version.
"#;

pub const VERSION: &'static str = "1.2.2";

pub const RELEASED: &'static str = "2026-01-13";

pub const CONFIG_FILENAME: &'static str = "meowpdf";

pub const DEFAULT_CONFIG: &'static str = r#"
[viewer]
# Determines how fast the document is scrolled
scroll_speed = 20.0
# Determines at what precision the pages are rendered
render_precision = 1.5
# Determines the image data limit that the software holds in RAM (bytes)
memory_limit = 314572800
# Minimum scale amount allowed
scale_min = 0.2
# Determines the default scale of the viewer when starting the viewer
scale_default = 0.5
# Determines the scaling amount when zooming in or out
scale_amount = 0.5
# Determines the margin on the bottom of each page
margin_bottom = 10.0
# Determines the amount of pages that are preloaded in advance 
pages_preloaded = 3
# Inverse vertical scroll
inverse_scroll = false

[viewer.uri_hint]
# Enabled URI hints
enabled = true
# Background color of hint bar
background = "blue"
# Foreground color of hint bar text
foreground = "white"
# Hint bar width percentage based on terminal width
width = 0.2 

[bindings]
"Ctrl+a" = "ToggleAlpha"
"Ctrl+o" = "ToggleInverse"
"C" = "CenterViewer"
"h" = "MoveLeft"
"j" = "MoveDown"
"k" = "MoveUp"
"l" = "MoveRight"
"Up" = "MoveUp"
"Left" = "MoveLeft"
"Right" = "MoveRight"
"Down" = "MoveDown"
"Plus" = "ZoomIn"
"-" = "ZoomOut"
"g g" = "JumpFirstPage"
"G" = "JumpLastPage"
"PageUp" = "PrevPage"
"PageDown" = "NextPage"
"Ctrl+b" = "PrevPage"
"Ctrl+f" = "NextPage"
"q" = "Quit"
"Q" = "Quit"
"#;

/// The environment variable that turns the debug log on.
pub const DEBUG_VARIABLE: &'static str = "MEOWPDF_DEBUG";

/// The file that the debug log is appended to.
pub const DEBUG_LOG_PATH: &'static str = "/tmp/meowpdf-debug.log";

/// The environment variable that tmux sets.
pub const TMUX_VARIABLE: &'static str = "TMUX";

/// The line that a message puts into the debug log: none if the log is off.
pub fn dlog(enabled: bool, msg: &str) -> (r: Option<String>)
    ensures
        r is Some <==> enabled,
        r matches Some(line) ==> line@ == msg@ + "\n"@,
{
    if !enabled {
        return None;
    }
    let mut line = msg.to_owned();
    line.append("\n");
    Some(line)
}

// ---------------------------------------------------------------------------
// User activity
// ---------------------------------------------------------------------------
/// The lower 64 bits of a number.
pub open spec fn low64(x: u128) -> u64 {
    (x % 0x1_0000_0000_0000_0000) as u64
}

fn take_low64(x: u128) -> (r: u64)
    ensures
        r == low64(x),
{
    assert(x as u64 == (x % 0x1_0000_0000_0000_0000) as u64) by (bit_vector);
    x as u64
}

/// The time that is noted of an input at `elapsed_ms` since the program's epoch. Without an
/// epoch none is noted.
pub open spec fn noted(elapsed_ms: Option<u128>) -> Option<u64> {
    match elapsed_ms {
        Some(elapsed) => Some(low64(elapsed)),
        None => None,
    }
}

/// How long the user has been idle. As long as can be before any input.
pub open spec fn idle(elapsed_ms: Option<u128>, last_input_ms: Option<u64>) -> u64 {
    match (elapsed_ms, last_input_ms) {
        (Some(elapsed), Some(last)) => if low64(elapsed) >= last {
            (low64(elapsed) - last) as u64
        } else {
            0
        },
        _ => u64::MAX,
    }
}

/// The time to note when the user has just interacted (scroll, key, mouse). `elapsed_ms` is
/// the time since the program's epoch.
pub fn mark_input(elapsed_ms: Option<u128>) -> (r: Option<u64>)
    ensures
        r == noted(elapsed_ms),
{
    match elapsed_ms {
        Some(elapsed) => Some(take_low64(elapsed)),
        None => None,
    }
}

/// Milliseconds since the last input of the user, of which `last_input_ms` is the noted time.
/// Large before any input has occurred, so transfers at startup are never put off.
pub fn idle_ms(elapsed_ms: Option<u128>, last_input_ms: Option<u64>) -> (r: u64)
    ensures
        r == idle(elapsed_ms, last_input_ms),
{
    match (elapsed_ms, last_input_ms) {
        (Some(elapsed), Some(last)) => take_low64(elapsed).saturating_sub(last),
        _ => u64::MAX,
    }
}

/// Before any input has occurred no transfer is put off.
pub proof fn startup_is_never_deferred(elapsed_ms: Option<u128>, running: bool)
    ensures
        !deferred(idle(elapsed_ms, None), running),
{
}

/// After an input the user counts as idle for exactly the time that has passed since, for as
/// long as milliseconds can be counted in 64 bits.
pub proof fn idle_time_is_counted_from_the_input(at: u128, later: u128)
    requires
        at <= later <= u64::MAX,
    ensures
        idle(Some(later), noted(Some(at))) == later - at,
        deferred(idle(Some(later), noted(Some(at))), true) <==> later - at < 100,
{
}

/// Whether the program runs inside tmux, given what is already known and what the environment
/// shows now. What was seen first counts.
pub open spec fn tmux_answer(known: Option<bool>, variable_is_set: bool) -> bool {
    match known {
        Some(b) => b,
        None => variable_is_set,
    }
}

/// Whether the program runs inside tmux, which does not pass graphics commands on as they
/// are. `known` keeps what the first look at the environment showed.
pub fn in_tmux(known: &mut Option<bool>, variable_is_set: bool) -> (r: bool)
    ensures
        r == tmux_answer(*old(known), variable_is_set),
        *final(known) == Some(r),
{
    match *known {
        Some(b) => b,
        None => {
            *known = Some(variable_is_set);
            variable_is_set
        },
    }
}

/// The answer never changes, whatever the environment shows later.
pub proof fn tmux_answer_is_kept(known: Option<bool>, first: bool, later: bool)
    ensures
        tmux_answer(Some(tmux_answer(known, first)), later) == tmux_answer(known, first),
{
}

/// Whether half a second has passed since `last`, both in nanoseconds. If it has, `last`
/// becomes `now`.
pub fn has_elapsed(last: &mut u128, now: u128) -> (r: bool)
    requires
        *old(last) <= now,
    ensures
        r == (now - *old(last) >= 500_000_000),
        *final(last) == if r {
            now
        } else {
            *old(last)
        },
{
    let elapsed: u128 = now - *last;
    if elapsed >= 500_000_000 {
        *last = now;
    }
    elapsed >= 500_000_000
}

/// The log takes each message as a line of its own while it is on, and nothing while it is off.
pub proof fn log_takes_whole_lines(enabled: bool, msg: &str, r: Option<String>)
    requires
        call_ensures(dlog, (enabled, msg), r),
    ensures
        !enabled ==> r is None,
        enabled ==> (r matches Some(line) && line@ == msg@.push('\n')),
{
    reveal_strlit("\n");
    assert(msg@ + "\n"@ =~= msg@.push('\n'));
}

/// An input is noted at its time, and the user counts as idle for the time that has passed
/// since, or not at all if the clock has gone back, for as long as milliseconds can be counted
/// in 64 bits.
pub proof fn noted_input_ends_the_idle_time(at: u128, later: u128, m: Option<u64>, r: u64)
    requires
        at <= u64::MAX,
        later <= u64::MAX,
        call_ensures(mark_input, (Some(at),), m),
        call_ensures(idle_ms, (Some(later), m), r),
    ensures
        m matches Some(noted_ms) && noted_ms == at,
        at <= later ==> r == later - at,
        later < at ==> r == 0,
{
}

/// Times are counted modulo 2^64.
pub proof fn times_wrap_around(elapsed: u128, last: u64, m: Option<u64>, r: u64)
    requires
        call_ensures(mark_input, (Some(elapsed),), m),
        call_ensures(idle_ms, (Some(elapsed), Some(last)), r),
    ensures
        ({
            let now = elapsed as int % 0x1_0000_0000_0000_0000;
            &&& m matches Some(noted_ms) && noted_ms == now
            &&& now >= last ==> r == now - last
            &&& now < last ==> r == 0
        }),
{
}

/// Before the program's epoch nothing is noted. Before it, and before any input, the user counts
/// as idle for as long as can be.
pub proof fn user_is_idle_before_any_input(
    elapsed: Option<u128>,
    last: Option<u64>,
    m: Option<u64>,
    r: u64,
)
    requires
        call_ensures(mark_input, (None::<u128>,), m),
        call_ensures(idle_ms, (elapsed, last), r),
        elapsed is None || last is None,
    ensures
        m is None,
        r == u64::MAX,
{
}

/// The first look at the environment decides whether the program runs inside tmux, and every
/// later answer is that of the first look.
pub proof fn first_look_decides(
    known: &mut Option<bool>,
    again: &mut Option<bool>,
    variable_is_set: bool,
    set_later: bool,
    r: bool,
    later: bool,
)
    requires
        call_ensures(in_tmux, (known, variable_is_set), r),
        *again == *final(known),
        call_ensures(in_tmux, (again, set_later), later),
    ensures
        *old(known) is None ==> r == variable_is_set,
        *old(known) matches Some(b) ==> r == b,
        later == r,
        *final(again) == Some(r),
{
}

/// Half a second passes at most once: where it has passed, it counts anew from then on, so that
/// a second look gives `false` until another half second has passed; where it has not, nothing
/// changes.
pub proof fn half_a_second_counts_anew(
    last: &mut u128,
    again: &mut u128,
    now: u128,
    later: u128,
    r: bool,
    second: bool,
)
    requires
        *last <= now <= later,
        call_ensures(has_elapsed, (last, now), r),
        *again == *final(last),
        call_ensures(has_elapsed, (again, later), second),
    ensures
        r <==> now >= *old(last) + 500_000_000,
        !r ==> *final(last) == *old(last),
        r ==> *final(last) == now && (second <==> later >= now + 500_000_000),
        second ==> *final(again) == later,
{
}

} // verus!
