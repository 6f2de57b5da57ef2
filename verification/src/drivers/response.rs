//! Responses of the Kitty graphics protocol.
use crate::text::{
    join, last_separator_cuts_off_the_last_piece, same_text, split, split_text, split_then_join,
    text_without_separator_is_one_piece, views,
};
use vstd::prelude::*;
use vstd::string::*;
use vstd::utf8::*;

verus! {

/// The error of `std::str::from_utf8`.
#[verifier::external_type_specification]
#[verifier::external_body]
pub struct ExUtf8Error(std::str::Utf8Error);

/// `std::str::from_utf8`: the text that the octets are the UTF-8 encoding of, if they are
/// the encoding of any.
pub assume_specification[ std::str::from_utf8 ](v: &[u8]) -> (r: Result<&str, std::str::Utf8Error>)
    ensures
        r is Ok <==> valid_utf8(v@),
        r matches Ok(s) ==> s.spec_bytes() == v@,
;

/// The key and the value of a control field. A field has them where it holds exactly one
/// `=`.
pub open spec fn key_and_value(field: Seq<char>) -> Option<(Seq<char>, Seq<char>)> {
    let parts = split(field, '=');
    if parts.len() == 2 {
        Some((parts[0], parts[1]))
    } else {
        None
    }
}

/// What becomes of some keys and values when control fields are added, one after the other. A
/// field without key and value is passed over.
pub open spec fn with_fields(
    had: Map<Seq<char>, Seq<char>>,
    fields: Seq<Seq<char>>,
) -> Map<Seq<char>, Seq<char>>
    decreases fields.len(),
{
    if fields.len() == 0 {
        had
    } else {
        let before = with_fields(had, fields.drop_last());
        match key_and_value(fields.last()) {
            Some((key, value)) => before.insert(key, value),
            None => before,
        }
    }
}

/// The values that control fields give to keys. The last field of a key counts, and a field
/// without key and value is passed over.
pub open spec fn controls(fields: Seq<Seq<char>>) -> Map<Seq<char>, Seq<char>> {
    with_fields(Map::empty(), fields)
}

/// The values that a text of comma-separated control fields gives to keys.
pub open spec fn control_values(source: Seq<char>) -> Map<Seq<char>, Seq<char>> {
    controls(split(source, ','))
}

/// A key has a value exactly where some field gives it one.
pub proof fn keys_come_from_fields(fields: Seq<Seq<char>>, key: Seq<char>)
    ensures
        controls(fields).dom().contains(key) <==> exists|i: int|
            0 <= i < fields.len() && (#[trigger] key_and_value(fields[i]) matches Some((k, _)) && k
                == key),
    decreases fields.len(),
{
    if fields.len() > 0 {
        let before = fields.drop_last();
        keys_come_from_fields(before, key);
        if controls(before).dom().contains(key) {
            let i = choose|i: int|
                0 <= i < before.len() && (#[trigger] key_and_value(before[i]) matches Some((k, _))
                    && k == key);
            assert(key_and_value(fields[i]) == key_and_value(before[i]));
        }
        if key_and_value(fields.last()) matches Some((k, _)) && k == key {
            assert(key_and_value(fields[fields.len() - 1]) == key_and_value(fields.last()));
        }
        if exists|i: int|
            0 <= i < fields.len() && (#[trigger] key_and_value(fields[i]) matches Some((k, _)) && k
                == key) {
            let i = choose|i: int|
                0 <= i < fields.len() && (#[trigger] key_and_value(fields[i]) matches Some((k, _))
                    && k == key);
            if i < before.len() {
                assert(key_and_value(before[i]) == key_and_value(fields[i]));
            }
        }
    }
}

/// Where several fields give a key a value, the last one counts.
pub proof fn last_field_counts(fields: Seq<Seq<char>>, i: int, key: Seq<char>, value: Seq<char>)
    requires
        0 <= i < fields.len(),
        key_and_value(fields[i]) == Some((key, value)),
        forall|j: int|
            i < j < fields.len() ==> !(#[trigger] key_and_value(fields[j]) matches Some((k, _)) && k
                == key),
    ensures
        controls(fields).dom().contains(key),
        controls(fields)[key] == value,
    decreases fields.len(),
{
    let before = fields.drop_last();
    if i < before.len() {
        assert forall|j: int| i < j < before.len() implies !(#[trigger] key_and_value(
            before[j],
        ) matches Some((k, _)) && k == key) by {
            assert(key_and_value(fields[j]) == key_and_value(before[j]));
        }
        assert(before[i] == fields[i]);
        last_field_counts(before, i, key, value);
        assert(!(key_and_value(fields[fields.len() - 1]) matches Some((k, _)) && k == key));
    }
}

proof fn lemma_fields_replace(had: Map<Seq<char>, Seq<char>>, fields: Seq<Seq<char>>)
    ensures
        with_fields(had, fields) == had.union_prefer_right(controls(fields)),
    decreases fields.len(),
{
    if fields.len() > 0 {
        lemma_fields_replace(had, fields.drop_last());
    }
    assert(with_fields(had, fields) =~= had.union_prefer_right(controls(fields)));
}

/// To add the same control fields once more changes nothing.
pub proof fn fields_added_again_change_nothing(
    had: Map<Seq<char>, Seq<char>>,
    fields: Seq<Seq<char>>,
)
    ensures
        with_fields(with_fields(had, fields), fields) == with_fields(had, fields),
{
    lemma_fields_replace(had, fields);
    lemma_fields_replace(with_fields(had, fields), fields);
    assert(with_fields(with_fields(had, fields), fields) =~= with_fields(had, fields));
}

/// A response of control fields and payload is taken apart into just these, where neither
/// holds a `;`.
pub proof fn response_is_taken_apart(control: Seq<char>, payload: Seq<char>)
    requires
        !control.contains(';'),
        !payload.contains(';'),
    ensures
        split(control + seq![';'] + payload, ';') == seq![control, payload],
{
    text_without_separator_is_one_piece(control, ';');
    last_separator_cuts_off_the_last_piece(control, payload, ';');
    assert(split(control, ';').push(payload) =~= seq![control, payload]);
}

/// The keys and values that a response carries. No key occurs twice.
#[derive(Debug)]
pub struct ControlMap {
    entries: Vec<(String, String)>,
}

impl ControlMap {
    spec fn position(self, key: Seq<char>) -> int {
        choose|i: int| 0 <= i < self.entries@.len() && (#[trigger] self.entries@[i]).0@ == key
    }

    spec fn holds(self, key: Seq<char>) -> bool {
        exists|i: int| 0 <= i < self.entries@.len() && (#[trigger] self.entries@[i]).0@ == key
    }

    #[verifier::type_invariant]
    spec fn keys_differ(self) -> bool {
        forall|i: int, j: int|
            0 <= i < j < self.entries@.len() ==> (#[trigger] self.entries@[i]).0@ != (
            #[trigger] self.entries@[j]).0@
    }
}

impl View for ControlMap {
    type V = Map<Seq<char>, Seq<char>>;

    closed spec fn view(&self) -> Map<Seq<char>, Seq<char>> {
        Map::new(
            |key: Seq<char>| self.holds(key),
            |key: Seq<char>| self.entries@[self.position(key)].1@,
        )
    }
}

impl ControlMap {
    /// A map without keys.
    pub fn new() -> (r: Self)
        ensures
            r@ == Map::<Seq<char>, Seq<char>>::empty(),
    {
        let r = ControlMap { entries: Vec::new() };
        assert(r@ =~= Map::<Seq<char>, Seq<char>>::empty());
        r
    }

    /// The value of `key`, if it has one.
    pub fn get(&self, key: &str) -> (r: Option<&str>)
        ensures
            r is Some <==> self@.dom().contains(key@),
            r matches Some(value) ==> value@ == self@[key@],
    {
        proof {
            use_type_invariant(self);
        }
        let mut i: usize = 0;
        while i < self.entries.len()
            invariant
                0 <= i <= self.entries@.len(),
                self.keys_differ(),
                forall|k: int| 0 <= k < i ==> (#[trigger] self.entries@[k]).0@ != key@,
            decreases self.entries.len() - i,
        {
            if same_text(self.entries[i].0.as_str(), key) {
                assert(self.holds(key@));
                assert(self.position(key@) == i);
                return Some(self.entries[i].1.as_str());
            }
            i = i + 1;
        }
        None
    }

    /// The number of keys.
    pub fn len(&self) -> (r: usize)
        ensures
            r == self@.len(),
    {
        proof {
            use_type_invariant(self);
            let keys = Seq::new(self.entries@.len(), |i: int| self.entries@[i].0@);
            assert(keys.no_duplicates());
            keys.unique_seq_to_set();
            assert forall|key: Seq<char>| self.holds(key) implies keys.contains(key) by {
                assert(keys[self.position(key)] == key);
            }
            assert forall|key: Seq<char>| keys.contains(key) implies self.holds(key) by {
                let i = choose|i: int| 0 <= i < keys.len() && keys[i] == key;
                assert(self.entries@[i].0@ == key);
            }
            assert(self@.dom() =~= keys.to_set());
        }
        self.entries.len()
    }

    /// Gives `key` a value, in place of the one it had.
    fn insert(&mut self, key: String, value: String)
        ensures
            final(self)@ == old(self)@.insert(key@, value@),
    {
        proof {
            use_type_invariant(&*self);
        }
        let ghost before = *self;
        let ghost (k, v) = (key@, value@);
        let mut entries: Vec<(String, String)> = Vec::new();
        std::mem::swap(&mut entries, &mut self.entries);
        let ghost had = entries@;
        let mut i: usize = 0;
        while i < entries.len() && !same_text(entries[i].0.as_str(), key.as_str())
            invariant
                0 <= i <= entries@.len(),
                entries@ == had,
                key@ == k,
                forall|j: int| 0 <= j < i ==> (#[trigger] entries@[j]).0@ != k,
            decreases entries.len() - i,
        {
            i = i + 1;
        }
        let found = i < entries.len();
        if found {
            entries.set(i, (key, value));
        } else {
            entries.push((key, value));
        }
        assert(entries@[i as int].0@ == k && entries@[i as int].1@ == v);
        assert forall|j: int| 0 <= j < had.len() && j != i implies entries@[j] == #[trigger] had[j] by {}
        self.entries = entries;
        proof {
            let after = *self;
            assert(after.keys_differ());
            assert forall|x: Seq<char>| after.holds(x) <==> before.holds(x) || x == k by {
                if before.holds(x) {
                    let j = before.position(x);
                    assert(before.entries@[j].0@ == x);
                    assert(after.entries@[j].0@ == x);
                }
                if x == k {
                    assert(after.entries@[i as int].0@ == x);
                }
                if after.holds(x) && x != k {
                    let j = after.position(x);
                    assert(after.entries@[j].0@ == x);
                    assert(before.entries@[j].0@ == x);
                }
            }
            assert forall|x: Seq<char>| after.holds(x) implies after.entries@[after.position(x)].1@
                == before@.insert(k, v)[x] by {
                let j = after.position(x);
                assert(after.entries@[j].0@ == x);
                if x == k {
                    assert(j == i);
                } else {
                    assert(before.entries@[j].0@ == x);
                    assert(before.holds(x));
                    let p = before.position(x);
                    assert(p == j);
                }
            }
            assert(after@ =~= before@.insert(k, v));
        }
    }
}

impl Clone for ControlMap {
    fn clone(&self) -> (r: Self)
        ensures
            r@ == self@,
    {
        proof {
            use_type_invariant(self);
        }
        let mut entries: Vec<(String, String)> = Vec::new();
        let mut i: usize = 0;
        while i < self.entries.len()
            invariant
                0 <= i <= self.entries@.len(),
                entries@ == self.entries@.take(i as int),
            decreases self.entries.len() - i,
        {
            entries.push((self.entries[i].0.clone(), self.entries[i].1.clone()));
            i = i + 1;
            assert(entries@ =~= self.entries@.take(i as int));
        }
        assert(entries@ =~= self.entries@);
        let r = ControlMap { entries };
        assert forall|key: Seq<char>| r.holds(key) == self.holds(key) by {
            if self.holds(key) {
                assert(r.entries@[self.position(key)].0@ == key);
            }
            if r.holds(key) {
                assert(self.entries@[r.position(key)].0@ == key);
            }
        }
        assert forall|key: Seq<char>| self.holds(key) implies r.position(key) == self.position(
            key,
        ) by {
            let (p, q) = (r.position(key), self.position(key));
            assert(r.holds(key));
            assert(r.entries@[p].0@ == key && self.entries@[q].0@ == key);
            assert(self.entries@[p].0@ == key);
        }
        assert(r@ =~= self@);
        r
    }
}

/// A response of the graphics protocol. Its control fields are only looked at when they are
/// asked for.
#[derive(Debug)]
pub struct GraphicsResponse {
    source: String,
    loaded: bool,
    control: ControlMap,
    payload: String,
}

impl GraphicsResponse {
    /// The control fields as they came.
    pub closed spec fn source_text(self) -> Seq<char> {
        self.source@
    }

    /// What follows the control fields.
    pub closed spec fn payload_text(self) -> Seq<char> {
        self.payload@
    }

    /// Whether the control fields have been looked at.
    pub closed spec fn is_loaded(self) -> bool {
        self.loaded
    }

    /// The keys and values that have been taken from the control fields so far.
    pub closed spec fn stored(self) -> Map<Seq<char>, Seq<char>> {
        self.control@
    }

    #[verifier::type_invariant]
    spec fn control_is_consistent(self) -> bool {
        self.control@ == if self.loaded {
            control_values(self.source@)
        } else {
            Map::empty()
        }
    }

    /// Takes a response apart: the control fields stand before the first `;`, the payload
    /// between the first and the second one. The control fields are not looked at yet.
    pub fn new(source: &[u8]) -> (r: Self)
        requires
            valid_utf8(source@),
        ensures
            ({
                let parts = split(decode_utf8(source@), ';');
                &&& r.source_text() == parts[0]
                &&& r.payload_text() == if parts.len() > 1 {
                    parts[1]
                } else {
                    Seq::<char>::empty()
                }
            }),
            !r.is_loaded(),
            r.stored() == Map::<Seq<char>, Seq<char>>::empty(),
    {
        match std::str::from_utf8(source) {
            Ok(text) => {
                proof {
                    encode_utf8_decode_utf8(text@);
                    split_then_join(text@, ';');
                }
                let parts = split_text(text, ';');
                assert(views(parts@).len() == parts@.len());
                assert(views(parts@)[0] == parts@[0]@);
                let first = parts[0].clone();
                let second = if parts.len() > 1 {
                    assert(views(parts@)[1] == parts@[1]@);
                    parts[1].clone()
                } else {
                    String::new()
                };
                GraphicsResponse {
                    source: first,
                    loaded: false,
                    control: ControlMap::new(),
                    payload: second,
                }
            },
            Err(_) => {
                assert(false);
                GraphicsResponse {
                    source: String::new(),
                    loaded: false,
                    control: ControlMap::new(),
                    payload: String::new(),
                }
            },
        }
    }

    /// Looks at the control fields. To look at them again changes nothing.
    fn load(&mut self)
        ensures
            final(self).loaded,
            final(self).source == old(self).source,
            final(self).payload == old(self).payload,
            final(self).control@ == with_fields(old(self).control@, split(old(self).source@, ',')),
            final(self).control@ == control_values(old(self).source@),
            old(self).loaded ==> final(self).control@ == old(self).control@,
    {
        proof {
            use_type_invariant(&*self);
        }
        let fields = split_text(self.source.as_str(), ',');
        let mut control = self.control.clone();
        let mut i: usize = 0;
        while i < fields.len()
            invariant
                0 <= i <= fields@.len(),
                control@ == with_fields(self.control@, views(fields@).take(i as int)),
            decreases fields.len() - i,
        {
            let parts = split_text(fields[i].as_str(), '=');
            proof {
                let upto = views(fields@).take(i + 1);
                assert(upto.drop_last() =~= views(fields@).take(i as int));
                assert(upto.last() == fields@[i as int]@);
                assert(views(parts@).len() == parts@.len());
            }
            if parts.len() == 2 {
                assert(views(parts@)[0] == parts@[0]@ && views(parts@)[1] == parts@[1]@);
                control.insert(parts[0].clone(), parts[1].clone());
            }
            i = i + 1;
        }
        proof {
            assert(views(fields@).take(fields@.len() as int) =~= views(fields@));
            fields_added_again_change_nothing(Map::empty(), views(fields@));
        }
        *self = GraphicsResponse {
            source: self.source.clone(),
            loaded: true,
            control,
            payload: self.payload.clone(),
        };
    }

    /// The keys and values of the control fields. They are looked at once, however often
    /// they are asked for.
    pub fn control(&mut self) -> (r: &ControlMap)
        ensures
            r@ == control_values(old(self).source_text()),
            final(self).source_text() == old(self).source_text(),
            final(self).payload_text() == old(self).payload_text(),
            final(self).is_loaded(),
            final(self).stored() == r@,
            old(self).is_loaded() ==> *final(self) == *old(self),
    {
        if !self.loaded {
            self.load();
        }
        proof {
            use_type_invariant(&*self);
        }
        &self.control
    }

    /// What follows the control fields.
    pub fn payload(&self) -> (r: &str)
        ensures
            r@ == self.payload_text(),
    {
        self.payload.as_str()
    }
}

impl Clone for GraphicsResponse {
    fn clone(&self) -> (r: Self)
        ensures
            r.source_text() == self.source_text(),
            r.payload_text() == self.payload_text(),
            r.is_loaded() == self.is_loaded(),
            r.stored() == self.stored(),
    {
        proof {
            use_type_invariant(self);
        }
        GraphicsResponse {
            source: self.source.clone(),
            loaded: self.loaded,
            control: self.control.clone(),
            payload: self.payload.clone(),
        }
    }
}

// ---------------------------------------------------------------------------
// What a response tells
// ---------------------------------------------------------------------------
/// A field gives a key a value exactly where it is the key, one `=` and the value, and neither
/// holds another `=`.
pub proof fn field_is_key_and_value(field: Seq<char>, key: Seq<char>, value: Seq<char>)
    ensures
        key_and_value(field) == Some((key, value)) <==> field == key + seq!['='] + value
            && !key.contains('=') && !value.contains('='),
{
    let parts = split(field, '=');
    split_then_join(field, '=');
    if key_and_value(field) == Some((key, value)) {
        assert(parts.drop_last() =~= seq![key]);
        assert(!parts[0].contains('=') && !parts[1].contains('='));
        assert(join(parts.drop_last(), '=') == key);
        assert(join(parts, '=') =~= key + seq!['='] + value);
    }
    if field == key + seq!['='] + value && !key.contains('=') && !value.contains('=') {
        text_without_separator_is_one_piece(key, '=');
        last_separator_cuts_off_the_last_piece(key, value, '=');
        assert(parts =~= seq![key, value]);
    }
}

/// The control fields of a response end at the first `;`, its payload at the second one or at
/// the end. Without a `;` everything is control fields and the payload is empty.
pub proof fn response_ends_at_semicolons(
    source: &[u8],
    control: Seq<char>,
    payload: Seq<char>,
    more: Seq<char>,
    r: GraphicsResponse,
    told: &str,
)
    requires
        call_ensures(GraphicsResponse::new, (source,), r),
        call_ensures(GraphicsResponse::payload, (&r,), told),
        !control.contains(';'),
        !payload.contains(';'),
    ensures
        decode_utf8(source@) == control ==> r.source_text() == control && told@.len() == 0,
        decode_utf8(source@) == control + seq![';'] + payload ==> r.source_text() == control
            && told@ == payload,
        decode_utf8(source@) == control + seq![';'] + payload + seq![';'] + more
            ==> r.source_text() == control && told@ == payload,
        told@ == r.payload_text(),
        !r.is_loaded(),
{
    let text = decode_utf8(source@);
    if text == control {
        text_without_separator_is_one_piece(control, ';');
    }
    if text == control + seq![';'] + payload {
        response_is_taken_apart(control, payload);
    }
    if text == control + seq![';'] + payload + seq![';'] + more {
        response_is_taken_apart(control, payload);
        lemma_first_pieces(control + seq![';'] + payload, more, ';');
    }
}

/// What follows a separator does not change the pieces before it.
proof fn lemma_first_pieces(a: Seq<char>, b: Seq<char>, sep: char)
    ensures
        split(a + seq![sep] + b, sep).len() > split(a, sep).len(),
        forall|i: int|
            0 <= i < split(a, sep).len() ==> #[trigger] split(a + seq![sep] + b, sep)[i] == split(
                a,
                sep,
            )[i],
    decreases b.len(),
{
    let s = a + seq![sep] + b;
    if b.len() == 0 {
        assert(s.drop_last() =~= a);
    } else {
        lemma_first_pieces(a, b.drop_last(), sep);
        assert(s.drop_last() =~= a + seq![sep] + b.drop_last());
    }
}

/// The control fields are told as they stand in the response, cut at the commas: a key has a
/// value exactly where some field is the key, `=` and the value, neither holding another `=`,
/// and no later field gives the key a value. Asking for them changes nothing that is told.
pub proof fn control_tells_the_last_value_of_each_key(
    g: &mut GraphicsResponse,
    r: &ControlMap,
    key: Seq<char>,
    value: Seq<char>,
)
    requires
        call_ensures(GraphicsResponse::control, (g,), r),
    ensures
        ({
            let fields = split(old(g).source_text(), ',');
            r@.dom().contains(key) && r@[key] == value <==> exists|i: int|
                0 <= i < fields.len() && #[trigger] fields[i] == key + seq!['='] + value
                    && !key.contains('=') && !value.contains('=') && forall|j: int, v: Seq<char>|
                    i < j < fields.len() && !v.contains('=') ==> #[trigger] fields[j] != #[trigger] (
                    key + seq!['='] + v)
        }),
        final(g).source_text() == old(g).source_text(),
        final(g).payload_text() == old(g).payload_text(),
{
    lemma_last_value(split(old(g).source_text(), ','), key, value);
}

proof fn lemma_last_value(fields: Seq<Seq<char>>, key: Seq<char>, value: Seq<char>)
    ensures
        controls(fields).dom().contains(key) && controls(fields)[key] == value <==> exists|i: int|
            0 <= i < fields.len() && #[trigger] fields[i] == key + seq!['='] + value
                && !key.contains('=') && !value.contains('=') && forall|j: int, v: Seq<char>|
                i < j < fields.len() && !v.contains('=') ==> #[trigger] fields[j] != #[trigger] (key
                    + seq!['='] + v),
{
    if exists|i: int|
        0 <= i < fields.len() && #[trigger] fields[i] == key + seq!['='] + value && !key.contains(
            '=',
        ) && !value.contains('=') && forall|j: int, v: Seq<char>|
            i < j < fields.len() && !v.contains('=') ==> #[trigger] fields[j] != #[trigger] (key
                + seq!['='] + v) {
        let i = choose|i: int|
            0 <= i < fields.len() && #[trigger] fields[i] == key + seq!['='] + value
                && !key.contains('=') && !value.contains('=') && forall|j: int, v: Seq<char>|
                i < j < fields.len() && !v.contains('=') ==> #[trigger] fields[j] != #[trigger] (key
                    + seq!['='] + v);
        field_is_key_and_value(fields[i], key, value);
        assert forall|j: int| i < j < fields.len() implies !(#[trigger] key_and_value(
            fields[j],
        ) matches Some((k, _)) && k == key) by {
            if let Some((k, v)) = key_and_value(fields[j]) {
                if k == key {
                    field_is_key_and_value(fields[j], k, v);
                    assert(fields[j] == key + seq!['='] + v);
                }
            }
        }
        last_field_counts(fields, i, key, value);
    }
    if controls(fields).dom().contains(key) && controls(fields)[key] == value {
        let i = lemma_last_field(fields, key);
        let v = (key_and_value(fields[i])->0).1;
        last_field_counts(fields, i, key, v);
        field_is_key_and_value(fields[i], key, v);
        assert forall|j: int, v: Seq<char>|
            i < j < fields.len() && !v.contains('=') implies #[trigger] fields[j] != #[trigger] (key
            + seq!['='] + v) by {
            field_is_key_and_value(fields[j], key, v);
            assert(!(key_and_value(fields[j]) matches Some((k, _)) && k == key));
        }
    }
}

/// The last field that gives a key a value.
proof fn lemma_last_field(fields: Seq<Seq<char>>, key: Seq<char>) -> (i: int)
    requires
        controls(fields).dom().contains(key),
    ensures
        0 <= i < fields.len(),
        key_and_value(fields[i]) matches Some((k, _)) && k == key,
        forall|j: int|
            i < j < fields.len() ==> !(#[trigger] key_and_value(fields[j]) matches Some((k, _)) && k
                == key),
    decreases fields.len(),
{
    let last = fields.len() - 1;
    if key_and_value(fields.last()) matches Some((k, _)) && k == key {
        last
    } else {
        let before = fields.drop_last();
        let i = lemma_last_field(before, key);
        assert forall|j: int| i < j < fields.len() implies !(#[trigger] key_and_value(
            fields[j],
        ) matches Some((k, _)) && k == key) by {
            if j < last {
                assert(before[j] == fields[j]);
                assert(!(key_and_value(before[j]) matches Some((k, _)) && k == key));
            }
        }
        i
    }
}

/// A key is looked up among the keys that a response carries, as it is written.
pub proof fn value_is_found_by_its_key(m: &ControlMap, key: &str, r: Option<&str>, n: usize)
    requires
        call_ensures(ControlMap::get, (m, key), r),
        call_ensures(ControlMap::len, (m,), n),
    ensures
        r matches Some(value) ==> m@.dom().contains(key@) && m@[key@] == value@,
        r is None ==> !m@.dom().contains(key@),
        n == m@.dom().len(),
{
}

} // verus!
