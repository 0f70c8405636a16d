//! The structured-value model used for tool parameters, hook bundle
//! configuration, MCP payloads and document metadata, together with a
//! verified text rendering.

use vstd::prelude::*;

use crate::strutil::push_char;

verus! {

/// A structured value: the shape of JSON data, with integer numbers.
#[derive(Debug)]
pub enum JsonValue {
    Null,
    Bool(bool),
    Int(i64),
    Str(String),
    Arr(Vec<JsonValue>),
    Obj(Vec<(String, JsonValue)>),
}

/// The mathematical model of a structured value.
pub enum JsonView {
    Null,
    Bool(bool),
    Int(int),
    Str(Seq<char>),
    Arr(Seq<JsonView>),
    Obj(Seq<(Seq<char>, JsonView)>),
}

/// The model of a structured value.
pub open spec fn view_of(v: JsonValue) -> JsonView
    decreases v,
{
    match v {
        JsonValue::Null => JsonView::Null,
        JsonValue::Bool(b) => JsonView::Bool(b),
        JsonValue::Int(n) => JsonView::Int(n as int),
        JsonValue::Str(s) => JsonView::Str(s@),
        JsonValue::Arr(items) => JsonView::Arr(arr_views(items)),
        JsonValue::Obj(entries) => JsonView::Obj(obj_views(entries)),
    }
}

/// The models of the elements of an array value.
pub open spec fn arr_views(items: Vec<JsonValue>) -> Seq<JsonView>
    decreases items,
{
    views_seq(items@)
}

/// The models of a sequence of values.
pub open spec fn views_seq(s: Seq<JsonValue>) -> Seq<JsonView>
    decreases s,
{
    if s.len() == 0 {
        Seq::empty()
    } else {
        views_seq(s.drop_last()).push(view_of(s.last()))
    }
}

/// The models of the entries of an object value.
pub open spec fn obj_views(entries: Vec<(String, JsonValue)>) -> Seq<(Seq<char>, JsonView)>
    decreases entries,
{
    entry_views_seq(entries@)
}

/// The models of a sequence of object entries.
pub open spec fn entry_views_seq(s: Seq<(String, JsonValue)>) -> Seq<(Seq<char>, JsonView)>
    decreases s,
{
    if s.len() == 0 {
        Seq::empty()
    } else {
        entry_views_seq(s.drop_last()).push((s.last().0@, view_of(s.last().1)))
    }
}

/// The model sequence of an array is as long as the array.
pub broadcast proof fn lemma_views_seq_len(s: Seq<JsonValue>)
    ensures
        (#[trigger] views_seq(s)).len() == s.len(),
    decreases s,
{
    if s.len() > 0 {
        lemma_views_seq_len(s.drop_last());
    }
}

/// Each element of the model sequence of an array is the model of the
/// corresponding element.
pub broadcast proof fn lemma_views_seq_index(s: Seq<JsonValue>, i: int)
    requires
        0 <= i < s.len(),
    ensures
        views_seq(s).len() == s.len(),
        #[trigger] views_seq(s)[i] == view_of(s[i]),
    decreases s,
{
    lemma_views_seq_len(s);
    if i < s.len() - 1 {
        lemma_views_seq_index(s.drop_last(), i);
        assert(s.drop_last()[i] == s[i]);
    }
}

/// The model sequence of an object is as long as the object.
pub broadcast proof fn lemma_entry_views_seq_len(s: Seq<(String, JsonValue)>)
    ensures
        (#[trigger] entry_views_seq(s)).len() == s.len(),
    decreases s,
{
    if s.len() > 0 {
        lemma_entry_views_seq_len(s.drop_last());
    }
}

/// Each entry of the model sequence of an object is the model of the
/// corresponding entry.
pub broadcast proof fn lemma_entry_views_seq_index(s: Seq<(String, JsonValue)>, i: int)
    requires
        0 <= i < s.len(),
    ensures
        entry_views_seq(s).len() == s.len(),
        #[trigger] entry_views_seq(s)[i] == (s[i].0@, view_of(s[i].1)),
    decreases s,
{
    lemma_entry_views_seq_len(s);
    if i < s.len() - 1 {
        lemma_entry_views_seq_index(s.drop_last(), i);
        assert(s.drop_last()[i] == s[i]);
    }
}

/// The facts that connect a value's model to its parts.
pub broadcast group group_json_view_lemmas {
    lemma_views_seq_len,
    lemma_views_seq_index,
    lemma_entry_views_seq_len,
    lemma_entry_views_seq_index,
}

impl View for JsonValue {
    type V = JsonView;

    open spec fn view(&self) -> JsonView {
        view_of(*self)
    }
}

/// Whether an object model holds an entry with key `key`.
pub open spec fn obj_has(entries: Seq<(Seq<char>, JsonView)>, key: Seq<char>) -> bool {
    exists|i: int| 0 <= i < entries.len() && #[trigger] entries[i].0 == key
}

/// The index of the first entry with key `key`; the length when none has it.
pub open spec fn obj_first_index(entries: Seq<(Seq<char>, JsonView)>, key: Seq<char>) -> int
    decreases entries.len(),
{
    if entries.len() == 0 {
        0
    } else if entries[0].0 == key {
        0
    } else {
        1 + obj_first_index(entries.skip(1), key)
    }
}

/// The value under `key` in an object model: the first entry's value, or
/// `None` when the model is not an object or has no such entry.
pub open spec fn obj_get_view(v: JsonView, key: Seq<char>) -> Option<JsonView> {
    match v {
        JsonView::Obj(entries) => if obj_has(entries, key) {
            Some(entries[obj_first_index(entries, key)].1)
        } else {
            None
        },
        _ => None,
    }
}

/// When no entry before `i` has the key and the entry at `i` does, the first
/// index with the key is `i`.
pub proof fn lemma_obj_first_index_char(
    entries: Seq<(Seq<char>, JsonView)>,
    key: Seq<char>,
    i: int,
)
    requires
        0 <= i <= entries.len(),
        forall|j: int| 0 <= j < i ==> (#[trigger] entries[j]).0 != key,
        i < entries.len() ==> entries[i].0 == key,
    ensures
        obj_first_index(entries, key) == i,
        i < entries.len() ==> obj_has(entries, key),
        i == entries.len() ==> !obj_has(entries, key),
    decreases entries.len(),
{
    if i == 0 {
        if entries.len() == 0 {
        } else if entries[0].0 == key {
        }
    } else {
        assert(entries[0].0 != key);
        assert forall|j: int| 0 <= j < i - 1 implies (#[trigger] entries.skip(1)[j]).0 != key by {
            assert(entries.skip(1)[j] == entries[j + 1]);
        }
        if i - 1 < entries.skip(1).len() {
            assert(entries.skip(1)[i - 1] == entries[i]);
        }
        lemma_obj_first_index_char(entries.skip(1), key, i - 1);
        if i < entries.len() {
            assert(entries[i].0 == key);
        } else {
            if obj_has(entries, key) {
                let w = choose|j: int| 0 <= j < entries.len() && #[trigger] entries[j].0 == key;
                assert(false);
            }
        }
    }
}

impl Clone for JsonValue {
    fn clone(&self) -> (r: Self)
        ensures
            r@ == self@,
        decreases *self,
    {
        match self {
            JsonValue::Null => JsonValue::Null,
            JsonValue::Bool(b) => JsonValue::Bool(*b),
            JsonValue::Int(n) => JsonValue::Int(*n),
            JsonValue::Str(s) => JsonValue::Str(s.clone()),
            JsonValue::Arr(items) => {
                let mut copies: Vec<JsonValue> = Vec::new();
                let mut i: usize = 0;
                while i < items.len()
                    invariant
                        i <= items.len(),
                        *self == JsonValue::Arr(*items),
                        copies@.len() == i,
                        forall|j: int| 0 <= j < i ==> #[trigger] copies@[j]@ == items@[j]@,
                    decreases items.len() - i,
                {
                    proof {
                        assert(decreases_to!(*self => self->Arr_0));
                        assert(decreases_to!(self->Arr_0 => self->Arr_0@));
                        assert(decreases_to!(self->Arr_0@ => self->Arr_0@[i as int]));
                        assert(decreases_to!(*self => items@[i as int]));
                    }
                    copies.push(items[i].clone());
                    i = i + 1;
                }
                proof {
                    lemma_views_seq_len(copies@);
                    lemma_views_seq_len(items@);
                    assert forall|j: int| 0 <= j < items@.len() implies views_seq(copies@)[j]
                        == views_seq(items@)[j] by {
                        lemma_views_seq_index(copies@, j);
                        lemma_views_seq_index(items@, j);
                        assert(copies@[j]@ == items@[j]@);
                    }
                    assert(views_seq(copies@) =~= views_seq(items@));
                }
                JsonValue::Arr(copies)
            },
            JsonValue::Obj(entries) => {
                let mut copies: Vec<(String, JsonValue)> = Vec::new();
                let mut i: usize = 0;
                while i < entries.len()
                    invariant
                        i <= entries.len(),
                        *self == JsonValue::Obj(*entries),
                        copies@.len() == i,
                        forall|j: int|
                            0 <= j < i ==> #[trigger] copies@[j].0@ == entries@[j].0@
                                && copies@[j].1@ == entries@[j].1@,
                    decreases entries.len() - i,
                {
                    proof {
                        assert(decreases_to!(*self => self->Obj_0));
                        assert(decreases_to!(self->Obj_0 => self->Obj_0@));
                        assert(decreases_to!(self->Obj_0@ => self->Obj_0@[i as int]));
                        assert(decreases_to!(self->Obj_0@[i as int] => self->Obj_0@[i as int].1));
                        assert(decreases_to!(*self => entries@[i as int].1));
                    }
                    let key = entries[i].0.clone();
                    let val = entries[i].1.clone();
                    copies.push((key, val));
                    i = i + 1;
                }
                proof {
                    lemma_entry_views_seq_len(copies@);
                    lemma_entry_views_seq_len(entries@);
                    assert forall|j: int| 0 <= j < entries@.len() implies entry_views_seq(
                        copies@,
                    )[j] == entry_views_seq(entries@)[j] by {
                        lemma_entry_views_seq_index(copies@, j);
                        lemma_entry_views_seq_index(entries@, j);
                        assert(copies@[j].0@ == entries@[j].0@);
                        assert(copies@[j].1@ == entries@[j].1@);
                    }
                    assert(entry_views_seq(copies@) =~= entry_views_seq(entries@));
                }
                JsonValue::Obj(copies)
            },
        }
    }
}

impl JsonValue {
    pub fn is_array(&self) -> (r: bool)
        ensures
            r == (self@ is Arr),
    {
        match self {
            JsonValue::Arr(_) => true,
            _ => false,
        }
    }

    pub fn is_object(&self) -> (r: bool)
        ensures
            r == (self@ is Obj),
    {
        match self {
            JsonValue::Obj(_) => true,
            _ => false,
        }
    }

    pub fn is_null(&self) -> (r: bool)
        ensures
            r == (self@ is Null),
    {
        match self {
            JsonValue::Null => true,
            _ => false,
        }
    }

    pub fn as_str(&self) -> (r: Option<&String>)
        ensures
            match r {
                Some(s) => self@ is Str && s@ == self@->Str_0,
                None => !(self@ is Str),
            },
    {
        match self {
            JsonValue::Str(s) => Some(s),
            _ => None,
        }
    }

    pub fn as_int(&self) -> (r: Option<i64>)
        ensures
            match r {
                Some(n) => self@ is Int && n as int == self@->Int_0,
                None => !(self@ is Int),
            },
    {
        match self {
            JsonValue::Int(n) => Some(*n),
            _ => None,
        }
    }

    pub fn as_bool(&self) -> (r: Option<bool>)
        ensures
            match r {
                Some(b) => self@ is Bool && b == self@->Bool_0,
                None => !(self@ is Bool),
            },
    {
        match self {
            JsonValue::Bool(b) => Some(*b),
            _ => None,
        }
    }

    /// Look a key up in an object value: the first entry with that key. On a
    /// non-object value the result is `None`.
    pub fn get<'a>(&'a self, key: &str) -> (r: Option<&'a JsonValue>)
        ensures
            match r {
                Some(v) => obj_get_view(self@, key@) == Some(v@),
                None => obj_get_view(self@, key@) is None,
            },
    {
        match self {
            JsonValue::Obj(entries) => {
                proof {
                    lemma_entry_views_seq_len(entries@);
                }
                let mut i: usize = 0;
                while i < entries.len()
                    invariant
                        i <= entries.len(),
                        *self == JsonValue::Obj(*entries),
                        self@->Obj_0.len() == entries@.len(),
                        forall|j: int| 0 <= j < i ==> (#[trigger] self@->Obj_0[j]).0 != key@,
                    decreases entries.len() - i,
                {
                    proof {
                        lemma_entry_views_seq_index(entries@, i as int);
                    }
                    if crate::strutil::str_eq(entries[i].0.as_str(), key) {
                        proof {
                            assert(self@->Obj_0[i as int].0 == key@);
                            lemma_obj_first_index_char(self@->Obj_0, key@, i as int);
                        }
                        return Some(&entries[i].1);
                    }
                    i = i + 1;
                }
                proof {
                    lemma_obj_first_index_char(self@->Obj_0, key@, entries@.len() as int);
                }
                None
            },
            _ => None,
        }
    }
}

/// The decimal digit character for `d`.
pub open spec fn digit_char(d: int) -> char {
    ((48 + d) as u8) as char
}

/// The decimal rendering of a natural number.
pub open spec fn dec_nat(n: nat) -> Seq<char>
    decreases n,
{
    if n < 10 {
        seq![digit_char(n as int)]
    } else {
        dec_nat(n / 10).push(digit_char((n % 10) as int))
    }
}

/// The decimal rendering of an integer, with a leading minus sign when
/// negative.
pub open spec fn dec_int(n: int) -> Seq<char> {
    if n < 0 {
        seq!['-'].add(dec_nat((-n) as nat))
    } else {
        dec_nat(n as nat)
    }
}

/// Render a natural number in decimal.
pub fn u64_to_string(n: u64) -> (r: String)
    ensures
        r@ == dec_nat(n as nat),
    decreases n,
{
    if n < 10 {
        let mut s = String::new();
        push_char(&mut s, (48u8 + (n as u8)) as char);
        proof {
            assert(s@ =~= dec_nat(n as nat));
        }
        s
    } else {
        let mut s = u64_to_string(n / 10);
        push_char(&mut s, (48u8 + ((n % 10) as u8)) as char);
        proof {
            assert(s@ =~= dec_nat(n as nat));
        }
        s
    }
}

/// Render a signed integer in decimal.
pub fn i64_to_string(n: i64) -> (r: String)
    ensures
        r@ == dec_int(n as int),
{
    if n < 0 {
        let mag: u64 = (-(n as i128)) as u64;
        proof {
            assert(mag as int == -(n as int));
        }
        let mut s = String::new();
        push_char(&mut s, '-');
        let digits = u64_to_string(mag);
        s.append(digits.as_str());
        proof {
            assert(s@ =~= dec_int(n as int));
        }
        s
    } else {
        u64_to_string(n as u64)
    }
}

/// The hexadecimal digit character for `d`.
pub open spec fn hex_char(d: int) -> char {
    if d < 10 {
        ((48 + d) as u8) as char
    } else {
        ((87 + d) as u8) as char
    }
}

/// The escaped form of one character inside a JSON string literal.
pub open spec fn escape_char(c: char) -> Seq<char> {
    if c == '"' {
        seq!['\\', '"']
    } else if c == '\\' {
        seq!['\\', '\\']
    } else if c == '\n' {
        seq!['\\', 'n']
    } else if c == '\r' {
        seq!['\\', 'r']
    } else if c == '\t' {
        seq!['\\', 't']
    } else if (c as int) < 32 {
        let lo = (c as int) % 16;
        let hi = (c as int) / 16;
        seq!['\\', 'u', '0', '0', hex_char(hi), hex_char(lo)]
    } else {
        seq![c]
    }
}

/// The escaped form of a whole string body.
pub open spec fn escape_chars(s: Seq<char>) -> Seq<char>
    decreases s.len(),
{
    if s.len() == 0 {
        Seq::empty()
    } else {
        escape_char(s[0]).add(escape_chars(s.skip(1)))
    }
}

/// A string rendered as a JSON string literal, quotes included.
pub open spec fn quoted(s: Seq<char>) -> Seq<char> {
    seq!['"'].add(escape_chars(s)).push('"')
}

proof fn lemma_escape_chars_push(s: Seq<char>, c: char)
    ensures
        escape_chars(s.push(c)) =~= escape_chars(s).add(escape_char(c)),
    decreases s.len(),
{
    if s.len() == 0 {
        assert(s.push(c).len() == 1);
        assert(s.push(c)[0] == c);
        assert(s.push(c).skip(1) =~= Seq::<char>::empty());
        assert(escape_chars(Seq::<char>::empty()) =~= Seq::<char>::empty());
        assert(escape_chars(s.push(c)) =~= escape_char(c).add(Seq::<char>::empty()));
        assert(escape_char(c).add(Seq::<char>::empty()) =~= escape_char(c));
        assert(escape_chars(s) =~= Seq::<char>::empty());
    } else {
        assert(s.push(c).skip(1) =~= s.skip(1).push(c));
        lemma_escape_chars_push(s.skip(1), c);
        assert(escape_chars(s.push(c)) =~= escape_char(s[0]).add(
            escape_chars(s.skip(1)).add(escape_char(c)),
        ));
    }
}

fn append_hex_digit(out: &mut String, d: u8)
    requires
        d < 16,
    ensures
        final(out)@ == old(out)@.push(hex_char(d as int)),
{
    if d < 10 {
        push_char(out, (48u8 + d) as char);
    } else {
        push_char(out, (87u8 + d) as char);
    }
}

/// Append the escaped body of `s` to `out`.
fn append_escaped(out: &mut String, s: &str)
    ensures
        final(out)@ == old(out)@.add(escape_chars(s@)),
{
    let len = s.unicode_len();
    let mut i: usize = 0;
    while i < len
        invariant
            i <= len,
            len == s@.len(),
            out@ == old(out)@.add(escape_chars(s@.subrange(0, i as int))),
        decreases len - i,
    {
        let c = s.get_char(i);
        proof {
            lemma_escape_chars_push(s@.subrange(0, i as int), c);
            assert(s@.subrange(0, i as int).push(c) =~= s@.subrange(0, i as int + 1));
        }
        if c == '"' {
            push_char(out, '\\');
            push_char(out, '"');
        } else if c == '\\' {
            push_char(out, '\\');
            push_char(out, '\\');
        } else if c == '\n' {
            push_char(out, '\\');
            push_char(out, 'n');
        } else if c == '\r' {
            push_char(out, '\\');
            push_char(out, 'r');
        } else if c == '\t' {
            push_char(out, '\\');
            push_char(out, 't');
        } else if (c as u32) < 32 {
            let code: u32 = c as u32;
            push_char(out, '\\');
            push_char(out, 'u');
            push_char(out, '0');
            push_char(out, '0');
            append_hex_digit(out, (code / 16) as u8);
            append_hex_digit(out, (code % 16) as u8);
        } else {
            push_char(out, c);
        }
        proof {
            assert(out@ =~= old(out)@.add(escape_chars(s@.subrange(0, i as int + 1))));
        }
        i = i + 1;
    }
    proof {
        assert(s@.subrange(0, len as int) =~= s@);
    }
}

/// The canonical text rendering of a value.
pub open spec fn json_text(v: JsonView) -> Seq<char>
    decreases v,
{
    match v {
        JsonView::Null => "null"@,
        JsonView::Bool(b) => if b {
            "true"@
        } else {
            "false"@
        },
        JsonView::Int(n) => dec_int(n),
        JsonView::Str(s) => quoted(s),
        JsonView::Arr(items) => seq!['['].add(json_items_text(items)).push(']'),
        JsonView::Obj(entries) => seq!['{'].add(json_entries_text(entries)).push('}'),
    }
}

/// The comma-separated renderings of a sequence of values.
pub open spec fn json_items_text(items: Seq<JsonView>) -> Seq<char>
    decreases items,
{
    if items.len() == 0 {
        Seq::empty()
    } else if items.len() == 1 {
        json_text(items[0])
    } else {
        json_items_text(items.take(items.len() - 1)).push(',').add(
            json_text(items[items.len() - 1]),
        )
    }
}

/// The comma-separated renderings of an object's entries.
pub open spec fn json_entries_text(entries: Seq<(Seq<char>, JsonView)>) -> Seq<char>
    decreases entries,
{
    if entries.len() == 0 {
        Seq::empty()
    } else if entries.len() == 1 {
        quoted(entries[0].0).push(':').add(json_text(entries[0].1))
    } else {
        json_entries_text(entries.take(entries.len() - 1)).push(',').add(
            quoted(entries[entries.len() - 1].0).push(':').add(
                json_text(entries[entries.len() - 1].1),
            ),
        )
    }
}

impl JsonValue {
    /// Render this value as JSON text.
    pub fn to_text(&self) -> (r: String)
        ensures
            r@ == json_text(self@),
        decreases *self,
    {
        match self {
            JsonValue::Null => String::from_str("null"),
            JsonValue::Bool(b) => {
                if *b {
                    String::from_str("true")
                } else {
                    String::from_str("false")
                }
            },
            JsonValue::Int(n) => i64_to_string(*n),
            JsonValue::Str(s) => {
                let mut out = String::new();
                push_char(&mut out, '"');
                append_escaped(&mut out, s.as_str());
                push_char(&mut out, '"');
                proof {
                    assert(out@ =~= quoted(s@));
                }
                out
            },
            JsonValue::Arr(items) => {
                let ghost vs = self@->Arr_0;
                proof {
                    lemma_views_seq_len(items@);
                }
                let mut out = String::new();
                push_char(&mut out, '[');
                let mut i: usize = 0;
                while i < items.len()
                    invariant
                        i <= items.len(),
                        *self == JsonValue::Arr(*items),
                        vs == self@->Arr_0,
                        vs.len() == items@.len(),
                        out@ == seq!['['].add(json_items_text(vs.take(i as int))),
                    decreases items.len() - i,
                {
                    if i > 0 {
                        push_char(&mut out, ',');
                    }
                    proof {
                        assert(decreases_to!(*self => self->Arr_0));
                        assert(decreases_to!(self->Arr_0 => self->Arr_0@));
                        assert(decreases_to!(self->Arr_0@ => self->Arr_0@[i as int]));
                        assert(decreases_to!(*self => items@[i as int]));
                    }
                    let piece = items[i].to_text();
                    out.append(piece.as_str());
                    proof {
                        lemma_views_seq_index(items@, i as int);
                        assert(vs.take(i as int + 1).take(i as int) =~= vs.take(i as int));
                        assert(vs.take(i as int + 1)[i as int] == vs[i as int]);
                        assert(vs[i as int] == items@[i as int]@);
                        if i == 0 {
                            assert(out@ =~= seq!['['].add(json_items_text(vs.take(1))));
                        } else {
                            assert(out@ =~= seq!['['].add(json_items_text(vs.take(i as int + 1))));
                        }
                    }
                    i = i + 1;
                }
                push_char(&mut out, ']');
                proof {
                    assert(vs.take(vs.len() as int) =~= vs);
                    assert(out@ =~= json_text(self@));
                }
                out
            },
            JsonValue::Obj(entries) => {
                let ghost vs = self@->Obj_0;
                proof {
                    lemma_entry_views_seq_len(entries@);
                }
                let mut out = String::new();
                push_char(&mut out, '{');
                let mut i: usize = 0;
                while i < entries.len()
                    invariant
                        i <= entries.len(),
                        *self == JsonValue::Obj(*entries),
                        vs == self@->Obj_0,
                        vs.len() == entries@.len(),
                        out@ == seq!['{'].add(json_entries_text(vs.take(i as int))),
                    decreases entries.len() - i,
                {
                    if i > 0 {
                        push_char(&mut out, ',');
                    }
                    proof {
                        assert(decreases_to!(*self => self->Obj_0));
                        assert(decreases_to!(self->Obj_0 => self->Obj_0@));
                        assert(decreases_to!(self->Obj_0@ => self->Obj_0@[i as int]));
                        assert(decreases_to!(self->Obj_0@[i as int] => self->Obj_0@[i as int].1));
                        assert(decreases_to!(*self => entries@[i as int].1));
                    }
                    push_char(&mut out, '"');
                    append_escaped(&mut out, entries[i].0.as_str());
                    push_char(&mut out, '"');
                    push_char(&mut out, ':');
                    let piece = entries[i].1.to_text();
                    out.append(piece.as_str());
                    proof {
                        lemma_entry_views_seq_index(entries@, i as int);
                        assert(vs.take(i as int + 1).take(i as int) =~= vs.take(i as int));
                        assert(vs.take(i as int + 1)[i as int] == vs[i as int]);
                        assert(vs[i as int].0 == entries@[i as int].0@);
                        assert(vs[i as int].1 == entries@[i as int].1@);
                        if i == 0 {
                            assert(out@ =~= seq!['{'].add(json_entries_text(vs.take(1))));
                        } else {
                            assert(out@ =~= seq!['{'].add(
                                json_entries_text(vs.take(i as int + 1)),
                            ));
                        }
                    }
                    i = i + 1;
                }
                push_char(&mut out, '}');
                proof {
                    assert(vs.take(vs.len() as int) =~= vs);
                    assert(out@ =~= json_text(self@));
                }
                out
            },
        }
    }
}

} // verus!
