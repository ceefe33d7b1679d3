//! Decoding and encoding of the structured digest output.
//!
//! The generation backend is instructed to answer with a JSON array of flat
//! objects whose members are strings. This module defines that grammar as
//! a mathematical recursive-descent parser over character sequences, an
//! executable parser proved equal to it, and the canonical JSON rendering
//! used when a digest is persisted.

use vstd::prelude::*;
use vstd::string::StringExecFns;
use vstd::string::StrSliceExecFns;
use crate::entry::{DebriefResponse, EntryModel};

verus! {

broadcast use vstd::string::group_string_axioms;

/// JSON insignificant whitespace.
pub open spec fn is_json_ws(c: char) -> bool {
    c == ' ' || c == '\n' || c == '\r' || c == '\t'
}

pub open spec fn is_hex_digit(c: char) -> bool {
    let v = c as u32;
    (0x30 <= v && v <= 0x39) || (0x41 <= v && v <= 0x46) || (0x61 <= v && v <= 0x66)
}

pub open spec fn hex_val(c: char) -> int {
    let v = c as u32;
    if 0x30 <= v && v <= 0x39 {
        v - 0x30
    } else if 0x41 <= v && v <= 0x46 {
        v - 0x37
    } else {
        v - 0x57
    }
}

/// The first index at or after `i` holding no insignificant whitespace.
pub open spec fn skip_ws(s: Seq<char>, i: int) -> int
    decreases s.len() - i,
{
    if i < s.len() && is_json_ws(s[i]) {
        skip_ws(s, i + 1)
    } else {
        i
    }
}

pub proof fn lemma_skip_ws_bounds(s: Seq<char>, i: int)
    requires
        0 <= i <= s.len(),
    ensures
        i <= skip_ws(s, i) <= s.len(),
    decreases s.len() - i,
{
    if i < s.len() && is_json_ws(s[i]) {
        lemma_skip_ws_bounds(s, i + 1);
    }
}

fn skip_ws_exec(s: &Vec<char>, i: usize) -> (r: usize)
    requires
        i <= s@.len(),
    ensures
        r == skip_ws(s@, i as int),
        i <= r <= s@.len(),
{
    let mut j = i;
    while j < s.len() && (s[j] == ' ' || s[j] == '\n' || s[j] == '\r' || s[j] == '\t')
        invariant
            i <= j <= s@.len(),
            skip_ws(s@, i as int) == skip_ws(s@, j as int),
        decreases s@.len() - j,
    {
        proof {
            assert(skip_ws(s@, j as int) == skip_ws(s@, j as int + 1));
        }
        j += 1;
    }
    j
}

/// The value of the four hex digits at `i`, when they are there.
pub open spec fn hex4(s: Seq<char>, i: int) -> Option<int> {
    if i + 4 <= s.len() && is_hex_digit(s[i]) && is_hex_digit(s[i + 1]) && is_hex_digit(s[i + 2])
        && is_hex_digit(s[i + 3]) {
        Some(
            hex_val(s[i]) * 0x1000 + hex_val(s[i + 1]) * 0x100 + hex_val(s[i + 2]) * 0x10 + hex_val(
                s[i + 3],
            ),
        )
    } else {
        None
    }
}

/// The escape sequence starting at `i` (just after the backslash): the
/// character it denotes and the index after it. A `\u` escape may denote
/// any scalar directly or an astral character as a surrogate pair; an
/// unpaired surrogate is malformed.
pub open spec fn parse_escape(s: Seq<char>, i: int) -> Option<(char, int)> {
    if i >= s.len() {
        None
    } else if s[i] == '"' {
        Some(('"', i + 1))
    } else if s[i] == '\\' {
        Some(('\\', i + 1))
    } else if s[i] == '/' {
        Some(('/', i + 1))
    } else if s[i] == 'b' {
        Some(('\u{0008}', i + 1))
    } else if s[i] == 'f' {
        Some(('\u{000C}', i + 1))
    } else if s[i] == 'n' {
        Some(('\n', i + 1))
    } else if s[i] == 'r' {
        Some(('\r', i + 1))
    } else if s[i] == 't' {
        Some(('\t', i + 1))
    } else if s[i] == 'u' {
        parse_unicode_escape(s, i + 1)
    } else {
        None
    }
}

/// The `\u` escape whose first hex digit sits at `i`.
pub open spec fn parse_unicode_escape(s: Seq<char>, i: int) -> Option<(char, int)> {
    match hex4(s, i) {
        Some(v) => {
            if 0xD800 <= v && v < 0xDC00 {
                if i + 10 <= s.len() && s[i + 4] == '\\' && s[i + 5] == 'u' {
                    match hex4(s, i + 6) {
                        Some(lo) => {
                            if 0xDC00 <= lo && lo < 0xE000 {
                                Some(
                                    (
                                        ((0x10000 + (v - 0xD800) * 0x400 + (lo
                                            - 0xDC00)) as u32) as char,
                                        i + 10,
                                    ),
                                )
                            } else {
                                None
                            }
                        },
                        None => None,
                    }
                } else {
                    None
                }
            } else if 0xDC00 <= v && v < 0xE000 {
                None
            } else {
                Some(((v as u32) as char, i + 4))
            }
        },
        None => None,
    }
}

/// The remainder of a string literal from `i` (just after the opening
/// quote): its decoded content and the index after the closing quote.
pub open spec fn parse_string_body(s: Seq<char>, i: int) -> Option<(Seq<char>, int)>
    decreases s.len() - i,
{
    if i >= s.len() {
        None
    } else if s[i] == '"' {
        Some((Seq::empty(), i + 1))
    } else if s[i] == '\\' {
        match parse_escape(s, i + 1) {
            Some((c, j)) => {
                if j <= s.len() {
                    match parse_string_body(s, j) {
                        Some((rest, end)) => Some((seq![c] + rest, end)),
                        None => None,
                    }
                } else {
                    None
                }
            },
            None => None,
        }
    } else if (s[i] as u32) < 0x20 {
        None
    } else {
        match parse_string_body(s, i + 1) {
            Some((rest, end)) => Some((seq![s[i]] + rest, end)),
            None => None,
        }
    }
}

/// A string literal starting with its opening quote at `i`: its decoded
/// content and the index after the closing quote.
pub open spec fn parse_string(s: Seq<char>, i: int) -> Option<(Seq<char>, int)> {
    if 0 <= i < s.len() && s[i] == '"' {
        parse_string_body(s, i + 1)
    } else {
        None
    }
}

pub proof fn lemma_string_body_advances(s: Seq<char>, i: int)
    requires
        0 <= i <= s.len(),
        parse_string_body(s, i) is Some,
    ensures
        i < (parse_string_body(s, i)->0).1 <= s.len(),
    decreases s.len() - i,
{
    if s[i] == '"' {
    } else if s[i] == '\\' {
        let (c, j) = parse_escape(s, i + 1)->0;
        lemma_string_body_advances(s, j);
    } else {
        lemma_string_body_advances(s, i + 1);
    }
}

pub proof fn lemma_string_advances(s: Seq<char>, i: int)
    requires
        0 <= i <= s.len(),
        parse_string(s, i) is Some,
    ensures
        i < (parse_string(s, i)->0).1 <= s.len(),
{
    lemma_string_body_advances(s, i + 1);
}

/// Relies on `char::from_u32` of std: it returns the character with the
/// given code exactly for codes that are Unicode scalar values.
pub assume_specification[ char::from_u32 ](v: u32) -> (r: Option<char>)
    ensures
        r is Some <==> (v < 0xD800 || (0xE000 <= v && v <= 0x10FFFF)),
        r is Some ==> r->0 == v as char,
;

/// Relies on `String::push` of std: it appends exactly the one character.
#[verifier::external_body]
pub(crate) fn push_char(s: &mut String, c: char)
    ensures
        final(s)@ == old(s)@ + seq![c],
{
    s.push(c);
}

fn hex_val_exec(c: char) -> (r: u32)
    requires
        is_hex_digit(c),
    ensures
        r == hex_val(c),
        r < 16,
{
    let v = c as u32;
    if v <= 0x39 {
        v - 0x30
    } else if v <= 0x46 {
        v - 0x37
    } else {
        v - 0x57
    }
}

fn is_hex_digit_exec(c: char) -> (r: bool)
    ensures
        r == is_hex_digit(c),
{
    let v = c as u32;
    (0x30 <= v && v <= 0x39) || (0x41 <= v && v <= 0x46) || (0x61 <= v && v <= 0x66)
}

fn hex4_exec(s: &Vec<char>, i: usize) -> (r: Option<u32>)
    requires
        i <= s@.len(),
    ensures
        match r {
            Some(v) => hex4(s@, i as int) == Some(v as int) && v <= 0xFFFF,
            None => hex4(s@, i as int) is None,
        },
{
    if s.len() >= 4 && i <= s.len() - 4 && is_hex_digit_exec(s[i]) && is_hex_digit_exec(s[i + 1])
        && is_hex_digit_exec(s[i + 2]) && is_hex_digit_exec(s[i + 3]) {
        let v = hex_val_exec(s[i]) * 0x1000 + hex_val_exec(s[i + 1]) * 0x100 + hex_val_exec(
            s[i + 2],
        ) * 0x10 + hex_val_exec(s[i + 3]);
        Some(v)
    } else {
        None
    }
}

/// Decodes the string literal whose opening quote sits at `i`; on success
/// returns its content and the index after the closing quote.
fn parse_string_exec(s: &Vec<char>, i: usize) -> (r: Option<(String, usize)>)
    requires
        i <= s@.len(),
    ensures
        match r {
            Some((text, end)) => parse_string(s@, i as int) == Some((text@, end as int)) && i
                < end <= s@.len(),
            None => parse_string(s@, i as int) is None,
        },
{
    if !(i < s.len() && s[i] == '"') {
        return None;
    }
    let mut out = String::new();
    let mut j: usize = i + 1;
    loop
        invariant
            i < s@.len(),
            s@[i as int] == '"',
            i + 1 <= j <= s@.len(),
            match parse_string_body(s@, j as int) {
                Some((rest, end)) => parse_string_body(s@, i + 1) == Some((out@ + rest, end)),
                None => parse_string_body(s@, i + 1) is None,
            },
        decreases s@.len() - j,
    {
        if j >= s.len() {
            return None;
        }
        let c = s[j];
        if c == '"' {
            proof {
                assert(parse_string_body(s@, j as int) == Some((Seq::<char>::empty(), j + 1)));
                assert(out@ + Seq::<char>::empty() =~= out@);
                lemma_string_body_advances(s@, i + 1);
            }
            let ghost (rest, end) = parse_string_body(s@, j as int)->0;
            proof {
                assert(rest =~= Seq::<char>::empty());
                assert(out@ + rest =~= out@);
                assert(parse_string_body(s@, i + 1) == Some((out@, j + 1)));
                assert(parse_string(s@, i as int) == Some((out@, j + 1)));
            }
            return Some((out, j + 1));
        } else if c == '\\' {
            if j + 1 >= s.len() {
                proof {
                    assert(parse_escape(s@, j + 1) is None);
                }
                return None;
            }
            let e = s[j + 1];
            let decoded: char;
            let next: usize;
            if e == '"' {
                decoded = '"';
                next = j + 2;
            } else if e == '\\' {
                decoded = '\\';
                next = j + 2;
            } else if e == '/' {
                decoded = '/';
                next = j + 2;
            } else if e == 'b' {
                decoded = '\u{0008}';
                next = j + 2;
            } else if e == 'f' {
                decoded = '\u{000C}';
                next = j + 2;
            } else if e == 'n' {
                decoded = '\n';
                next = j + 2;
            } else if e == 'r' {
                decoded = '\r';
                next = j + 2;
            } else if e == 't' {
                decoded = '\t';
                next = j + 2;
            } else if e == 'u' {
                match hex4_exec(s, j + 2) {
                    None => {
                        return None;
                    },
                    Some(v) => {
                        if 0xD800 <= v && v < 0xDC00 {
                            if s.len() >= 12 && j <= s.len() - 12 && s[j + 6] == '\\' && s[j
                                + 7] == 'u' {
                                match hex4_exec(s, j + 8) {
                                    None => {
                                        return None;
                                    },
                                    Some(lo) => {
                                        if 0xDC00 <= lo && lo < 0xE000 {
                                            let code: u32 = 0x10000 + (v - 0xD800) * 0x400 + (lo
                                                - 0xDC00);
                                            match char::from_u32(code) {
                                                Some(d) => {
                                                    decoded = d;
                                                    next = j + 12;
                                                },
                                                None => {
                                                    proof {
                                                        assert(false);
                                                    }
                                                    return None;
                                                },
                                            }
                                        } else {
                                            return None;
                                        }
                                    },
                                }
                            } else {
                                return None;
                            }
                        } else if 0xDC00 <= v && v < 0xE000 {
                            return None;
                        } else {
                            match char::from_u32(v) {
                                Some(d) => {
                                    decoded = d;
                                    next = j + 6;
                                },
                                None => {
                                    proof {
                                        assert(false);
                                    }
                                    return None;
                                },
                            }
                        }
                    },
                }
            } else {
                return None;
            }
            proof {
                assert(parse_escape(s@, j + 1) == Some((decoded, next as int)));
            }
            let ghost before = out@;
            push_char(&mut out, decoded);
            proof {
                if parse_string_body(s@, next as int) is Some {
                    let (rest, end) = parse_string_body(s@, next as int)->0;
                    assert(parse_string_body(s@, j as int) == Some((seq![decoded] + rest, end)));
                    assert(out@ + rest =~= before + (seq![decoded] + rest));
                }
            }
            j = next;
        } else if (c as u32) < 0x20 {
            return None;
        } else {
            let ghost before = out@;
            push_char(&mut out, c);
            proof {
                if parse_string_body(s@, j + 1) is Some {
                    let (rest, end) = parse_string_body(s@, j + 1)->0;
                    assert(parse_string_body(s@, j as int) == Some((seq![c] + rest, end)));
                    assert(out@ + rest =~= before + (seq![c] + rest));
                }
            }
            j = j + 1;
        }
    }
}

/// One `"key": "value"` member of an object.
#[verifier::ext_equal]
pub ghost struct MemberModel {
    pub key: Seq<char>,
    pub value: Seq<char>,
}

struct JsonMember {
    key: String,
    value: String,
}

impl View for JsonMember {
    type V = MemberModel;

    closed spec fn view(&self) -> MemberModel {
        MemberModel { key: self.key@, value: self.value@ }
    }
}

impl DeepView for JsonMember {
    type V = MemberModel;

    closed spec fn deep_view(&self) -> MemberModel {
        self.view()
    }
}

/// A member starting at `i`: a string key, a colon, a string value, with
/// whitespace between the tokens.
pub open spec fn parse_member(s: Seq<char>, i: int) -> Option<(MemberModel, int)> {
    match parse_string(s, i) {
        Some((key, j)) => {
            if j <= s.len() {
                let j2 = skip_ws(s, j);
                if j2 < s.len() && s[j2] == ':' {
                    let j3 = skip_ws(s, j2 + 1);
                    match parse_string(s, j3) {
                        Some((value, j4)) => Some((MemberModel { key, value }, j4)),
                        None => None,
                    }
                } else {
                    None
                }
            } else {
                None
            }
        },
        None => None,
    }
}

pub proof fn lemma_member_advances(s: Seq<char>, i: int)
    requires
        0 <= i <= s.len(),
        parse_member(s, i) is Some,
    ensures
        i < (parse_member(s, i)->0).1 <= s.len(),
{
    lemma_string_advances(s, i);
    let (key, j) = parse_string(s, i)->0;
    lemma_skip_ws_bounds(s, j);
    let j2 = skip_ws(s, j);
    lemma_skip_ws_bounds(s, j2 + 1);
    let j3 = skip_ws(s, j2 + 1);
    lemma_string_advances(s, j3);
}

/// The members after the first one, with `acc` holding those already
/// read: either a closing brace or a comma followed by another member.
pub open spec fn parse_members_rest(s: Seq<char>, i: int, acc: Seq<MemberModel>) -> Option<
    (Seq<MemberModel>, int),
>
    decreases s.len() - i,
        when 0 <= i <= s.len()
        via parse_members_rest_dec
{
    let j = skip_ws(s, i);
    if j < s.len() && s[j] == '}' {
        Some((acc, j + 1))
    } else if j < s.len() && s[j] == ',' {
        let k = skip_ws(s, j + 1);
        match parse_member(s, k) {
            Some((m, e)) => {
                if e <= s.len() {
                    parse_members_rest(s, e, acc.push(m))
                } else {
                    None
                }
            },
            None => None,
        }
    } else {
        None
    }
}

#[via_fn]
proof fn parse_members_rest_dec(s: Seq<char>, i: int, acc: Seq<MemberModel>) {
    lemma_skip_ws_bounds(s, i);
    let j = skip_ws(s, i);
    if j < s.len() && s[j] != '}' && s[j] == ',' {
        lemma_skip_ws_bounds(s, j + 1);
        let k = skip_ws(s, j + 1);
        if parse_member(s, k) is Some {
            lemma_member_advances(s, k);
        }
    }
}

pub proof fn lemma_members_rest_advances(s: Seq<char>, i: int, acc: Seq<MemberModel>)
    requires
        0 <= i <= s.len(),
        parse_members_rest(s, i, acc) is Some,
    ensures
        i < (parse_members_rest(s, i, acc)->0).1 <= s.len(),
    decreases s.len() - i,
{
    lemma_skip_ws_bounds(s, i);
    let j = skip_ws(s, i);
    if j < s.len() && s[j] == '}' {
    } else {
        lemma_skip_ws_bounds(s, j + 1);
        let k = skip_ws(s, j + 1);
        lemma_member_advances(s, k);
        let (m, e) = parse_member(s, k)->0;
        lemma_members_rest_advances(s, e, acc.push(m));
    }
}

/// An object starting with its opening brace at `i`: the sequence of its
/// members and the index after the closing brace.
pub open spec fn parse_object(s: Seq<char>, i: int) -> Option<(Seq<MemberModel>, int)> {
    if 0 <= i < s.len() && s[i] == '{' {
        let j = skip_ws(s, i + 1);
        if j < s.len() && s[j] == '}' {
            Some((Seq::empty(), j + 1))
        } else {
            match parse_member(s, j) {
                Some((m, k)) => {
                    if k <= s.len() {
                        parse_members_rest(s, k, seq![m])
                    } else {
                        None
                    }
                },
                None => None,
            }
        }
    } else {
        None
    }
}

pub proof fn lemma_object_advances(s: Seq<char>, i: int)
    requires
        0 <= i <= s.len(),
        parse_object(s, i) is Some,
    ensures
        i < (parse_object(s, i)->0).1 <= s.len(),
{
    lemma_skip_ws_bounds(s, i + 1);
    let j = skip_ws(s, i + 1);
    if j < s.len() && s[j] == '}' {
    } else {
        lemma_member_advances(s, j);
        let (m, k) = parse_member(s, j)->0;
        lemma_members_rest_advances(s, k, seq![m]);
    }
}

fn parse_member_exec(s: &Vec<char>, i: usize) -> (r: Option<(JsonMember, usize)>)
    requires
        i <= s@.len(),
    ensures
        match r {
            Some((m, end)) => parse_member(s@, i as int) == Some((m@, end as int)) && i < end
                <= s@.len(),
            None => parse_member(s@, i as int) is None,
        },
{
    match parse_string_exec(s, i) {
        None => None,
        Some((key, j)) => {
            let j2 = skip_ws_exec(s, j);
            if j2 < s.len() && s[j2] == ':' {
                let j3 = skip_ws_exec(s, j2 + 1);
                match parse_string_exec(s, j3) {
                    Some((value, j4)) => Some((JsonMember { key, value }, j4)),
                    None => None,
                }
            } else {
                None
            }
        },
    }
}

fn parse_object_exec(s: &Vec<char>, i: usize) -> (r: Option<(Vec<JsonMember>, usize)>)
    requires
        i <= s@.len(),
    ensures
        match r {
            Some((ms, end)) => parse_object(s@, i as int) == Some((ms.deep_view(), end as int))
                && i < end <= s@.len(),
            None => parse_object(s@, i as int) is None,
        },
{
    if !(i < s.len() && s[i] == '{') {
        return None;
    }
    let j0 = skip_ws_exec(s, i + 1);
    if j0 < s.len() && s[j0] == '}' {
        let ms: Vec<JsonMember> = Vec::new();
        proof {
            assert(ms.deep_view() =~= Seq::<MemberModel>::empty());
        }
        return Some((ms, j0 + 1));
    }
    let mut ms: Vec<JsonMember> = Vec::new();
    let mut pos: usize;
    match parse_member_exec(s, j0) {
        None => {
            return None;
        },
        Some((m, k)) => {
            ms.push(m);
            pos = k;
            proof {
                assert(ms.deep_view() =~= seq![ms@[0]@]);
            }
        },
    }
    loop
        invariant
            i < s@.len(),
            s@[i as int] == '{',
            pos <= s@.len(),
            i < pos,
            parse_object(s@, i as int) == parse_members_rest(s@, pos as int, ms.deep_view()),
        decreases s@.len() - pos,
    {
        let ghost acc = ms.deep_view();
        let j = skip_ws_exec(s, pos);
        if j < s.len() && s[j] == '}' {
            proof {
                assert(parse_members_rest(s@, pos as int, acc) == Some((acc, j + 1)));
            }
            return Some((ms, j + 1));
        } else if j < s.len() && s[j] == ',' {
            let k2 = skip_ws_exec(s, j + 1);
            match parse_member_exec(s, k2) {
                Some((m2, e)) => {
                    ms.push(m2);
                    proof {
                        assert(ms.deep_view() =~= acc.push(ms@[ms@.len() - 1]@));
                        assert(parse_members_rest(s@, pos as int, acc) == parse_members_rest(
                            s@,
                            e as int,
                            ms.deep_view(),
                        ));
                    }
                    pos = e;
                },
                None => {
                    proof {
                        assert(parse_members_rest(s@, pos as int, acc) is None);
                    }
                    return None;
                },
            }
        } else {
            proof {
                assert(parse_members_rest(s@, pos as int, acc) is None);
            }
            return None;
        }
    }
}

/// How many members of `ms` carry the given key.
pub open spec fn count_key(ms: Seq<MemberModel>, key: Seq<char>) -> int
    decreases ms.len(),
{
    if ms.len() == 0 {
        0
    } else {
        count_key(ms.drop_last(), key) + if ms.last().key == key {
            1int
        } else {
            0int
        }
    }
}

/// The value of the last member of `ms` carrying the given key.
pub open spec fn value_of_key(ms: Seq<MemberModel>, key: Seq<char>) -> Seq<char>
    decreases ms.len(),
{
    if ms.len() == 0 {
        Seq::empty()
    } else if ms.last().key == key {
        ms.last().value
    } else {
        value_of_key(ms.drop_last(), key)
    }
}

/// The digest entry described by an object's members: each of the three
/// required keys must occur exactly once; other members are ignored.
pub open spec fn entry_of_members(ms: Seq<MemberModel>) -> Option<EntryModel> {
    if count_key(ms, "description"@) == 1 && count_key(ms, "url"@) == 1 && count_key(
        ms,
        "type_of_change"@,
    ) == 1 {
        Some(
            EntryModel {
                description: value_of_key(ms, "description"@),
                url: value_of_key(ms, "url"@),
                type_of_change: value_of_key(ms, "type_of_change"@),
            },
        )
    } else {
        None
    }
}

proof fn lemma_count_step(ms: Seq<MemberModel>, i: int, key: Seq<char>)
    requires
        0 <= i < ms.len(),
    ensures
        count_key(ms.take(i + 1), key) == count_key(ms.take(i), key) + if ms[i].key == key {
            1int
        } else {
            0int
        },
        value_of_key(ms.take(i + 1), key) == if ms[i].key == key {
            ms[i].value
        } else {
            value_of_key(ms.take(i), key)
        },
{
    assert(ms.take(i + 1).drop_last() =~= ms.take(i));
    assert(ms.take(i + 1).last() == ms[i]);
}

fn entry_of_members_exec(ms: &Vec<JsonMember>) -> (r: Option<DebriefResponse>)
    ensures
        match r {
            Some(e) => entry_of_members(ms.deep_view()) == Some(e@),
            None => entry_of_members(ms.deep_view()) is None,
        },
{
    let ghost models = ms.deep_view();
    let key_description: String = String::from_str("description");
    let key_url: String = String::from_str("url");
    let key_type: String = String::from_str("type_of_change");
    let mut n_description: usize = 0;
    let mut n_url: usize = 0;
    let mut n_type: usize = 0;
    let mut description: Option<String> = None;
    let mut url: Option<String> = None;
    let mut type_of_change: Option<String> = None;
    let mut i: usize = 0;
    while i < ms.len()
        invariant
            i <= ms.len(),
            models == ms.deep_view(),
            models.len() == ms.len(),
            key_description@ == "description"@,
            key_url@ == "url"@,
            key_type@ == "type_of_change"@,
            n_description <= i && n_url <= i && n_type <= i,
            n_description == count_key(models.take(i as int), "description"@),
            n_url == count_key(models.take(i as int), "url"@),
            n_type == count_key(models.take(i as int), "type_of_change"@),
            n_description > 0 ==> (description matches Some(d) && d@ == value_of_key(
                models.take(i as int),
                "description"@,
            )),
            n_url > 0 ==> (url matches Some(d) && d@ == value_of_key(
                models.take(i as int),
                "url"@,
            )),
            n_type > 0 ==> (type_of_change matches Some(d) && d@ == value_of_key(
                models.take(i as int),
                "type_of_change"@,
            )),
            n_description == 0 ==> description is None,
            n_url == 0 ==> url is None,
            n_type == 0 ==> type_of_change is None,
        decreases ms.len() - i,
    {
        let m = &ms[i];
        proof {
            reveal_strlit("description");
            reveal_strlit("url");
            reveal_strlit("type_of_change");
            assert("description"@.len() == 11);
            assert("url"@.len() == 3);
            assert("type_of_change"@.len() == 14);
            assert(models[i as int] == ms@[i as int]@);
            lemma_count_step(models, i as int, "description"@);
            lemma_count_step(models, i as int, "url"@);
            lemma_count_step(models, i as int, "type_of_change"@);
        }
        if m.key == key_description {
            n_description += 1;
            description = Some(m.value.clone());
        } else if m.key == key_url {
            n_url += 1;
            url = Some(m.value.clone());
        } else if m.key == key_type {
            n_type += 1;
            type_of_change = Some(m.value.clone());
        }
        i += 1;
    }
    proof {
        assert(models.take(models.len() as int) =~= models);
    }
    if n_description == 1 && n_url == 1 && n_type == 1 {
        match (description, url, type_of_change) {
            (Some(d), Some(u), Some(t)) => Some(
                DebriefResponse { description: d, url: u, type_of_change: t },
            ),
            _ => None,
        }
    } else {
        None
    }
}

/// An array element: an object that must describe a digest entry.
pub open spec fn parse_entry(s: Seq<char>, i: int) -> Option<(EntryModel, int)> {
    match parse_object(s, i) {
        Some((ms, j)) => match entry_of_members(ms) {
            Some(e) => Some((e, j)),
            None => None,
        },
        None => None,
    }
}

pub proof fn lemma_entry_advances(s: Seq<char>, i: int)
    requires
        0 <= i <= s.len(),
        parse_entry(s, i) is Some,
    ensures
        i < (parse_entry(s, i)->0).1 <= s.len(),
{
    lemma_object_advances(s, i);
}

fn parse_entry_exec(s: &Vec<char>, i: usize) -> (r: Option<(DebriefResponse, usize)>)
    requires
        i <= s@.len(),
    ensures
        match r {
            Some((e, end)) => parse_entry(s@, i as int) == Some((e@, end as int)) && i < end
                <= s@.len(),
            None => parse_entry(s@, i as int) is None,
        },
{
    match parse_object_exec(s, i) {
        Some((ms, j)) => match entry_of_members_exec(&ms) {
            Some(e) => Some((e, j)),
            None => None,
        },
        None => None,
    }
}

/// The elements after the first one, with `acc` holding those already
/// read: either a closing bracket or a comma followed by another element.
pub open spec fn parse_entries_rest(s: Seq<char>, i: int, acc: Seq<EntryModel>) -> Option<
    (Seq<EntryModel>, int),
>
    decreases s.len() - i,
        when 0 <= i <= s.len()
        via parse_entries_rest_dec
{
    let j = skip_ws(s, i);
    if j < s.len() && s[j] == ']' {
        Some((acc, j + 1))
    } else if j < s.len() && s[j] == ',' {
        let k = skip_ws(s, j + 1);
        match parse_entry(s, k) {
            Some((e, end)) => {
                if end <= s.len() {
                    parse_entries_rest(s, end, acc.push(e))
                } else {
                    None
                }
            },
            None => None,
        }
    } else {
        None
    }
}

#[via_fn]
proof fn parse_entries_rest_dec(s: Seq<char>, i: int, acc: Seq<EntryModel>) {
    lemma_skip_ws_bounds(s, i);
    let j = skip_ws(s, i);
    if j < s.len() && s[j] != ']' && s[j] == ',' {
        lemma_skip_ws_bounds(s, j + 1);
        let k = skip_ws(s, j + 1);
        if parse_entry(s, k) is Some {
            lemma_entry_advances(s, k);
        }
    }
}

/// An array starting with its opening bracket at `i`: the digest entries
/// it holds and the index after the closing bracket.
pub open spec fn parse_array(s: Seq<char>, i: int) -> Option<(Seq<EntryModel>, int)> {
    if 0 <= i < s.len() && s[i] == '[' {
        let j = skip_ws(s, i + 1);
        if j < s.len() && s[j] == ']' {
            Some((Seq::empty(), j + 1))
        } else {
            match parse_entry(s, j) {
                Some((e, k)) => {
                    if k <= s.len() {
                        parse_entries_rest(s, k, seq![e])
                    } else {
                        None
                    }
                },
                None => None,
            }
        }
    } else {
        None
    }
}

/// A full response text: one array of entry objects, surrounded only by
/// whitespace.
pub open spec fn spec_parse_entries(s: Seq<char>) -> Option<Seq<EntryModel>> {
    match parse_array(s, skip_ws(s, 0)) {
        Some((es, j)) => {
            if 0 <= j <= s.len() && skip_ws(s, j) == s.len() {
                Some(es)
            } else {
                None
            }
        },
        None => None,
    }
}

pub(crate) fn str_chars(text: &str) -> (r: Vec<char>)
    ensures
        r@ == text@,
{
    let n = text.unicode_len();
    let mut out: Vec<char> = Vec::new();
    let mut i: usize = 0;
    while i < n
        invariant
            n == text@.len(),
            i <= n,
            out@ == text@.take(i as int),
        decreases n - i,
    {
        let c = text.get_char(i);
        out.push(c);
        proof {
            assert(out@ =~= text@.take(i as int + 1));
        }
        i += 1;
    }
    proof {
        assert(text@.take(n as int) =~= text@);
    }
    out
}

fn parse_array_exec(s: &Vec<char>, i: usize) -> (r: Option<(Vec<DebriefResponse>, usize)>)
    requires
        i <= s@.len(),
    ensures
        match r {
            Some((es, end)) => parse_array(s@, i as int) == Some((es.deep_view(), end as int))
                && i < end <= s@.len(),
            None => parse_array(s@, i as int) is None,
        },
{
    if !(i < s.len() && s[i] == '[') {
        return None;
    }
    let j0 = skip_ws_exec(s, i + 1);
    if j0 < s.len() && s[j0] == ']' {
        let es: Vec<DebriefResponse> = Vec::new();
        proof {
            assert(es.deep_view() =~= Seq::<EntryModel>::empty());
        }
        return Some((es, j0 + 1));
    }
    let mut es: Vec<DebriefResponse> = Vec::new();
    let mut pos: usize;
    match parse_entry_exec(s, j0) {
        None => {
            return None;
        },
        Some((e, k)) => {
            es.push(e);
            pos = k;
            proof {
                assert(es.deep_view() =~= seq![es@[0]@]);
            }
        },
    }
    loop
        invariant
            i < s@.len(),
            s@[i as int] == '[',
            pos <= s@.len(),
            i < pos,
            parse_array(s@, i as int) == parse_entries_rest(s@, pos as int, es.deep_view()),
        decreases s@.len() - pos,
    {
        let ghost acc = es.deep_view();
        let j = skip_ws_exec(s, pos);
        if j < s.len() && s[j] == ']' {
            proof {
                assert(parse_entries_rest(s@, pos as int, acc) == Some((acc, j + 1)));
            }
            return Some((es, j + 1));
        } else if j < s.len() && s[j] == ',' {
            let k2 = skip_ws_exec(s, j + 1);
            match parse_entry_exec(s, k2) {
                Some((e2, end)) => {
                    es.push(e2);
                    proof {
                        assert(es.deep_view() =~= acc.push(es@[es@.len() - 1]@));
                        assert(parse_entries_rest(s@, pos as int, acc) == parse_entries_rest(
                            s@,
                            end as int,
                            es.deep_view(),
                        ));
                    }
                    pos = end;
                },
                None => {
                    proof {
                        assert(parse_entries_rest(s@, pos as int, acc) is None);
                    }
                    return None;
                },
            }
        } else {
            proof {
                assert(parse_entries_rest(s@, pos as int, acc) is None);
            }
            return None;
        }
    }
}

/// Decodes a backend response text as the digest-entry array it must be;
/// any deviation from the grammar yields nothing.
pub fn parse_entries(text: &str) -> (r: Option<Vec<DebriefResponse>>)
    ensures
        match r {
            Some(es) => spec_parse_entries(text@) == Some(es.deep_view()),
            None => spec_parse_entries(text@) is None,
        },
{
    let s = str_chars(text);
    let start = skip_ws_exec(&s, 0);
    match parse_array_exec(&s, start) {
        None => None,
        Some((es, j)) => {
            let after = skip_ws_exec(&s, j);
            if after == s.len() {
                Some(es)
            } else {
                None
            }
        },
    }
}

/// The canonical digit for a hex value, lower case.
pub open spec fn hex_digit_char(d: int) -> char {
    ((if d < 10 {
        0x30 + d
    } else {
        0x57 + d
    }) as u32) as char
}

/// The canonical JSON rendering of one character inside a string literal:
/// quote, backslash and the named control characters get their short
/// escapes, other control characters a `\u00` escape, everything else
/// stands as itself.
pub open spec fn escape_char(c: char) -> Seq<char> {
    if c == '"' {
        "\\\""@
    } else if c == '\\' {
        "\\\\"@
    } else if c == '\n' {
        "\\n"@
    } else if c == '\r' {
        "\\r"@
    } else if c == '\t' {
        "\\t"@
    } else if c == '\u{0008}' {
        "\\b"@
    } else if c == '\u{000C}' {
        "\\f"@
    } else if (c as u32) < 0x20 {
        seq!['\\', 'u', '0', '0', hex_digit_char((c as u32) as int / 16), hex_digit_char((c as u32) as int % 16)]
    } else {
        seq![c]
    }
}

/// The canonical JSON rendering of a string's content.
pub open spec fn escape_string(s: Seq<char>) -> Seq<char>
    decreases s.len(),
{
    if s.len() == 0 {
        Seq::empty()
    } else {
        escape_string(s.drop_last()) + escape_char(s.last())
    }
}

/// The canonical JSON rendering of one digest entry.
pub open spec fn render_entry(e: EntryModel) -> Seq<char> {
    "{\"description\":\""@ + escape_string(e.description) + "\",\"url\":\""@ + escape_string(e.url)
        + "\",\"type_of_change\":\""@ + escape_string(e.type_of_change) + "\"}"@
}

/// The renderings of the entries, joined by commas.
pub open spec fn render_items(es: Seq<EntryModel>) -> Seq<char>
    decreases es.len(),
{
    if es.len() == 0 {
        Seq::empty()
    } else if es.len() == 1 {
        render_entry(es.last())
    } else {
        render_items(es.drop_last()) + ","@ + render_entry(es.last())
    }
}

/// The canonical JSON rendering of a digest: an array of entry objects.
pub open spec fn spec_render_entries(es: Seq<EntryModel>) -> Seq<char> {
    "["@ + render_items(es) + "]"@
}

fn push_escaped(out: &mut String, c: char)
    ensures
        final(out)@ == old(out)@ + escape_char(c),
{
    let code = c as u32;
    if c == '"' {
        out.append("\\\"");
    } else if c == '\\' {
        out.append("\\\\");
    } else if c == '\n' {
        out.append("\\n");
    } else if c == '\r' {
        out.append("\\r");
    } else if c == '\t' {
        out.append("\\t");
    } else if c == '\u{0008}' {
        out.append("\\b");
    } else if c == '\u{000C}' {
        out.append("\\f");
    } else if code < 0x20 {
        out.append("\\u00");
        let hi: u32 = code / 16;
        let lo: u32 = code % 16;
        let hi_digit = char::from_u32(
            if hi < 10 {
                0x30 + hi
            } else {
                0x57 + hi
            },
        );
        let lo_digit = char::from_u32(
            if lo < 10 {
                0x30 + lo
            } else {
                0x57 + lo
            },
        );
        match (hi_digit, lo_digit) {
            (Some(h), Some(l)) => {
                push_char(out, h);
                push_char(out, l);
                proof {
                    reveal_strlit("\\u00");
                    assert("\\u00"@ =~= seq!['\\', 'u', '0', '0']);
                    assert(h == hex_digit_char(code as int / 16));
                    assert(l == hex_digit_char(code as int % 16));
                    assert(out@ =~= old(out)@ + escape_char(c));
                }
            },
            _ => {
                proof {
                    assert(false);
                }
            },
        }
    } else {
        push_char(out, c);
    }
}

fn append_escaped(out: &mut String, text: &str)
    ensures
        final(out)@ == old(out)@ + escape_string(text@),
{
    let cs = str_chars(text);
    let mut i: usize = 0;
    proof {
        assert(old(out)@ + escape_string(cs@.take(0)) =~= old(out)@);
    }
    while i < cs.len()
        invariant
            i <= cs.len(),
            cs@ == text@,
            out@ == old(out)@ + escape_string(cs@.take(i as int)),
        decreases cs.len() - i,
    {
        let ghost before = out@;
        push_escaped(out, cs[i]);
        proof {
            assert(cs@.take(i as int + 1).drop_last() =~= cs@.take(i as int));
            assert(cs@.take(i as int + 1).last() == cs@[i as int]);
            assert(out@ =~= old(out)@ + escape_string(cs@.take(i as int + 1)));
        }
        i += 1;
    }
    proof {
        assert(cs@.take(cs@.len() as int) =~= cs@);
    }
}

fn append_entry(out: &mut String, e: &DebriefResponse)
    ensures
        final(out)@ == old(out)@ + render_entry(e@),
{
    out.append("{\"description\":\"");
    append_escaped(out, e.description.as_str());
    out.append("\",\"url\":\"");
    append_escaped(out, e.url.as_str());
    out.append("\",\"type_of_change\":\"");
    append_escaped(out, e.type_of_change.as_str());
    out.append("\"}");
    proof {
        assert(out@ =~= old(out)@ + render_entry(e@));
    }
}

/// Renders a digest as the canonical JSON text that a storage delivery
/// persists.
pub fn entries_to_json(entries: &Vec<DebriefResponse>) -> (r: String)
    ensures
        r@ == spec_render_entries(entries.deep_view()),
{
    let ghost models = entries.deep_view();
    let mut out = String::new();
    out.append("[");
    let mut i: usize = 0;
    while i < entries.len()
        invariant
            i <= entries.len(),
            models == entries.deep_view(),
            models.len() == entries.len(),
            out@ == "["@ + render_items(models.take(i as int)),
        decreases entries.len() - i,
    {
        if i > 0 {
            out.append(",");
        }
        let ghost mid = out@;
        append_entry(&mut out, &entries[i]);
        proof {
            assert(models[i as int] == entries@[i as int]@);
            assert(models.take(i as int + 1).drop_last() =~= models.take(i as int));
            assert(models.take(i as int + 1).last() == models[i as int]);
            if i == 0 {
                assert(out@ =~= "["@ + render_items(models.take(1)));
            } else {
                assert(out@ =~= "["@ + render_items(models.take(i as int + 1)));
            }
        }
        i += 1;
    }
    out.append("]");
    proof {
        assert(models.take(models.len() as int) =~= models);
        assert(out@ =~= spec_render_entries(models));
    }
    out
}

proof fn lemma_escape_append(a: Seq<char>, b: Seq<char>)
    ensures
        escape_string(a + b) == escape_string(a) + escape_string(b),
    decreases b.len(),
{
    if b.len() == 0 {
        assert(a + b =~= a);
        assert(escape_string(a) + escape_string(b) =~= escape_string(a));
    } else {
        lemma_escape_append(a, b.drop_last());
        assert((a + b).drop_last() =~= a + b.drop_last());
        assert((a + b).last() == b.last());
        assert(escape_string(a) + escape_string(b) =~= escape_string(a + b.drop_last())
            + escape_char(b.last()));
    }
}

proof fn lemma_escape_first(c: Seq<char>)
    requires
        c.len() > 0,
    ensures
        escape_string(c) == escape_char(c[0]) + escape_string(c.drop_first()),
{
    lemma_escape_append(seq![c[0]], c.drop_first());
    assert(seq![c[0]] + c.drop_first() =~= c);
    assert(seq![c[0]].drop_last() =~= Seq::<char>::empty());
    assert(escape_string(Seq::<char>::empty()) =~= Seq::<char>::empty());
    assert(seq![c[0]].last() == c[0]);
    assert(escape_string(seq![c[0]]) =~= escape_char(c[0]));
}

proof fn lemma_escape_char_inverts(w: Seq<char>, i: int, c0: char)
    requires
        0 <= i,
        i + escape_char(c0).len() <= w.len(),
        w.subrange(i, i + escape_char(c0).len()) == escape_char(c0),
    ensures
        1 <= escape_char(c0).len() <= 6,
        escape_char(c0).len() == 1 ==> w[i] == c0 && c0 != '"' && c0 != '\\' && (c0 as u32)
            >= 0x20,
        escape_char(c0).len() != 1 ==> w[i] == '\\' && parse_escape(w, i + 1) == Some(
            (c0, i + escape_char(c0).len()),
        ),
{
    reveal_strlit("\\\"");
    reveal_strlit("\\\\");
    reveal_strlit("\\n");
    reveal_strlit("\\r");
    reveal_strlit("\\t");
    reveal_strlit("\\b");
    reveal_strlit("\\f");
    let e = escape_char(c0);
    assert forall|k: int| 0 <= k < e.len() implies w[i + k] == e[k] by {
        assert(w.subrange(i, i + e.len() as int)[k] == w[i + k]);
    }
    if c0 == '"' {
        assert(e.len() == 2 && e[0] == '\\' && e[1] == '"');
        assert(parse_escape(w, i + 1) == Some((c0, i + 2)));
    } else if c0 == '\\' {
        assert(e.len() == 2 && e[0] == '\\' && e[1] == '\\');
        assert(parse_escape(w, i + 1) == Some((c0, i + 2)));
    } else if c0 == '\n' {
        assert(e.len() == 2 && e[0] == '\\' && e[1] == 'n');
        assert(parse_escape(w, i + 1) == Some((c0, i + 2)));
    } else if c0 == '\r' {
        assert(e.len() == 2 && e[0] == '\\' && e[1] == 'r');
        assert(parse_escape(w, i + 1) == Some((c0, i + 2)));
    } else if c0 == '\t' {
        assert(e.len() == 2 && e[0] == '\\' && e[1] == 't');
        assert(parse_escape(w, i + 1) == Some((c0, i + 2)));
    } else if c0 == '\u{0008}' {
        assert(e.len() == 2 && e[0] == '\\' && e[1] == 'b');
        assert(parse_escape(w, i + 1) == Some((c0, i + 2)));
    } else if c0 == '\u{000C}' {
        assert(e.len() == 2 && e[0] == '\\' && e[1] == 'f');
        assert(parse_escape(w, i + 1) == Some((c0, i + 2)));
    } else if (c0 as u32) < 0x20 {
        let v = c0 as u32;
        vstd::arithmetic::div_mod::lemma_fundamental_div_mod(v as int, 16);
        assert(w[i] == '\\' && w[i + 1] == 'u' && w[i + 2] == '0' && w[i + 3] == '0');
        assert(w[i + 4] == hex_digit_char(v as int / 16));
        assert(w[i + 5] == hex_digit_char(v as int % 16));
        assert(is_hex_digit(w[i + 4]) && is_hex_digit(w[i + 5]));
        assert(hex_val(w[i + 4]) == v as int / 16 && hex_val(w[i + 5]) == v as int % 16);
        assert(hex4(w, i + 2) == Some(v as int));
        assert(parse_unicode_escape(w, i + 2) == Some((c0, i + 6)));
        assert(parse_escape(w, i + 1) == Some((c0, i + 6)));
    } else {
        assert(e == seq![c0]);
        assert(w[i + 0] == e[0]);
        assert(w[i] == c0);
    }
}

proof fn lemma_escaped_body_parses(w: Seq<char>, i: int, c: Seq<char>)
    requires
        0 <= i,
        i + escape_string(c).len() + 1 <= w.len(),
        w.subrange(i, i + escape_string(c).len()) == escape_string(c),
        w[i + escape_string(c).len()] == '"',
    ensures
        parse_string_body(w, i) == Some((c, i + escape_string(c).len() + 1)),
    decreases c.len(),
{
    let all = escape_string(c);
    if c.len() == 0 {
        assert(c =~= Seq::<char>::empty());
        assert(w[i] == '"');
    } else {
        lemma_escape_first(c);
        let e = escape_char(c[0]);
        let tail = escape_string(c.drop_first());
        assert forall|k: int| 0 <= k < all.len() implies w[i + k] == all[k] by {
            assert(w.subrange(i, i + all.len() as int)[k] == w[i + k]);
        }
        assert forall|k: int| 0 <= k < e.len() implies w.subrange(
            i,
            i + e.len() as int,
        )[k] == e[k] by {
            assert(w.subrange(i, i + e.len() as int)[k] == w[i + k]);
            assert(all[k] == (e + tail)[k]);
        }
        assert(w.subrange(i, i + e.len() as int) =~= e);
        lemma_escape_char_inverts(w, i, c[0]);
        let next = i + e.len();
        assert forall|k: int| 0 <= k < tail.len() implies w.subrange(
            next,
            next + tail.len() as int,
        )[k] == tail[k] by {
            assert(w.subrange(next, next + tail.len() as int)[k] == w[next + k]);
            assert(w[i + (e.len() + k)] == all[e.len() + k]);
            assert(all[e.len() + k] == (e + tail)[e.len() + k]);
        }
        assert(w.subrange(next, next + tail.len() as int) =~= tail);
        assert(w[next + tail.len() as int] == '"');
        lemma_escaped_body_parses(w, next, c.drop_first());
        assert(seq![c[0]] + c.drop_first() =~= c);
        if e.len() == 1 {
            assert(w[i] == c[0]);
            assert(parse_string_body(w, i) == Some((c, i + all.len() + 1)));
        } else {
            assert(w[i] == '\\');
            assert(parse_escape(w, i + 1) == Some((c[0], next)));
            assert(parse_string_body(w, i) == Some((c, i + all.len() + 1)));
        }
    }
}

proof fn lemma_plain_chars_escape(sq: Seq<char>)
    requires
        forall|k: int|
            0 <= k < sq.len() ==> #[trigger] sq[k] != '"' && sq[k] != '\\' && (sq[k] as u32)
                >= 0x20,
    ensures
        escape_string(sq) == sq,
    decreases sq.len(),
{
    if sq.len() > 0 {
        lemma_plain_chars_escape(sq.drop_last());
        assert(escape_char(sq.last()) == seq![sq.last()]);
        assert(escape_string(sq) =~= sq);
    } else {
        assert(escape_string(sq) =~= sq);
    }
}

spec fn plain_key(sq: Seq<char>) -> bool {
    forall|k: int|
        0 <= k < sq.len() ==> #[trigger] sq[k] != '"' && sq[k] != '\\' && (sq[k] as u32) >= 0x20
}

proof fn lemma_member_parses(w: Seq<char>, i: int, key: Seq<char>, value: Seq<char>)
    requires
        0 <= i,
        plain_key(key),
        i + key.len() + escape_string(value).len() + 5 <= w.len(),
        w[i] == '"',
        w.subrange(i + 1, i + 1 + key.len() as int) == key,
        w[i + 1 + key.len() as int] == '"',
        w[i + 2 + key.len() as int] == ':',
        w[i + 3 + key.len() as int] == '"',
        w.subrange(i + 4 + key.len() as int, i + 4 + key.len() + escape_string(value).len())
            == escape_string(value),
        w[i + 4 + key.len() + escape_string(value).len()] == '"',
    ensures
        parse_member(w, i) == Some(
            (
                MemberModel { key, value },
                i + key.len() + escape_string(value).len() + 5,
            ),
        ),
{
    let kn = key.len() as int;
    let vn = escape_string(value).len() as int;
    lemma_plain_chars_escape(key);
    lemma_escaped_body_parses(w, i + 1, key);
    assert(parse_string(w, i) == Some((key, i + kn + 2)));
    let j = i + kn + 2;
    assert(!is_json_ws(w[j]));
    assert(skip_ws(w, j) == j);
    assert(w[j] == ':');
    assert(!is_json_ws(w[j + 1]));
    assert(skip_ws(w, j + 1) == j + 1);
    lemma_escaped_body_parses(w, j + 2, value);
    assert(parse_string(w, j + 1) == Some((value, j + 2 + vn + 1)));
    assert(parse_member(w, i) == Some((MemberModel { key, value }, i + kn + vn + 5)));
}

#[verifier::rlimit(100)]
proof fn lemma_entry_round_trip(w: Seq<char>, i: int, e: EntryModel)
    requires
        0 <= i,
        i + render_entry(e).len() <= w.len(),
        w.subrange(i, i + render_entry(e).len()) == render_entry(e),
    ensures
        parse_entry(w, i) == Some((e, i + render_entry(e).len() as int)),
{
    reveal_strlit("{\"description\":\"");
    reveal_strlit("\",\"url\":\"");
    reveal_strlit("\",\"type_of_change\":\"");
    reveal_strlit("\"}");
    reveal_strlit("description");
    reveal_strlit("url");
    reveal_strlit("type_of_change");
    let a = "{\"description\":\""@;
    let b = "\",\"url\":\""@;
    let c = "\",\"type_of_change\":\""@;
    let d = "\"}"@;
    let dk = "description"@;
    let uk = "url"@;
    let tk = "type_of_change"@;
    assert(a.len() == 16 && b.len() == 9 && c.len() == 20 && d.len() == 2);
    assert(dk.len() == 11 && uk.len() == 3 && tk.len() == 14);
    let e1 = escape_string(e.description);
    let e2 = escape_string(e.url);
    let e3 = escape_string(e.type_of_change);
    let v1 = e1.len() as int;
    let v2 = e2.len() as int;
    let v3 = e3.len() as int;
    let r = render_entry(e);
    let rn = r.len() as int;
    assert(rn == 47 + v1 + v2 + v3);
    // The first member: its key is the description label.
    assert(plain_key(dk));
    let i1 = i + 1;
    assert(w[i] == '{') by {
        assert(w.subrange(i, i + rn)[0] == w[i]);
        assert(r[0] == a[0]);
    }
    assert(w[i1] == '"') by {
        assert(w.subrange(i, i + rn)[1] == w[i + 1]);
        assert(r[1] == a[1]);
    }
    assert forall|k: int| 0 <= k < 11 implies w.subrange(i + 2, i + 13)[k] == dk[k] by {
        assert(w.subrange(i + 2, i + 13)[k] == w[i + 2 + k]);
        assert(w.subrange(i, i + rn)[2 + k] == w[i + (2 + k)]);
        assert(r[2 + k] == a[2 + k]);
    }
    assert(w.subrange(i1 + 1, i1 + 1 + 11) =~= dk);
    assert(w[i + 13] == '"') by {
        assert(w.subrange(i, i + rn)[13] == w[i + 13]);
        assert(r[13] == a[13]);
    }
    assert(w[i + 14] == ':') by {
        assert(w.subrange(i, i + rn)[14] == w[i + 14]);
        assert(r[14] == a[14]);
    }
    assert(w[i + 15] == '"') by {
        assert(w.subrange(i, i + rn)[15] == w[i + 15]);
        assert(r[15] == a[15]);
    }
    assert forall|k: int| 0 <= k < v1 implies w.subrange(i + 16, i + 16 + v1)[k] == e1[k] by {
        assert(w.subrange(i + 16, i + 16 + v1)[k] == w[i + 16 + k]);
        assert(w.subrange(i, i + rn)[16 + k] == w[i + (16 + k)]);
        assert(r[16 + k] == e1[k]);
    }
    assert(w.subrange(i1 + 4 + 11, i1 + 4 + 11 + v1) =~= e1);
    assert(w[i + 16 + v1] == '"') by {
        assert(w.subrange(i, i + rn)[16 + v1] == w[i + (16 + v1)]);
        assert(r[16 + v1] == b[0]);
    }
    lemma_member_parses(w, i1, dk, e.description);
    let m1 = MemberModel { key: dk, value: e.description };
    let m1e = i1 + 11 + v1 + 5;
    assert(parse_member(w, i1) == Some((m1, m1e)));
    // The second member: its key is the address label.
    assert(plain_key(uk));
    let i2 = i + 18 + v1;
    assert(w[i + 17 + v1] == ',') by {
        assert(w.subrange(i, i + rn)[17 + v1] == w[i + (17 + v1)]);
        assert(r[17 + v1] == b[1]);
    }
    assert(w[i2] == '"') by {
        assert(w.subrange(i, i + rn)[18 + v1] == w[i + (18 + v1)]);
        assert(r[18 + v1] == b[2]);
    }
    assert forall|k: int| 0 <= k < 3 implies w.subrange(i2 + 1, i2 + 4)[k] == uk[k] by {
        assert(w.subrange(i2 + 1, i2 + 4)[k] == w[i2 + 1 + k]);
        assert(w.subrange(i, i + rn)[19 + v1 + k] == w[i + (19 + v1 + k)]);
        assert(r[19 + v1 + k] == b[3 + k]);
    }
    assert(w.subrange(i2 + 1, i2 + 1 + 3) =~= uk);
    assert(w[i2 + 4] == '"') by {
        assert(w.subrange(i, i + rn)[22 + v1] == w[i + (22 + v1)]);
        assert(r[22 + v1] == b[6]);
    }
    assert(w[i2 + 5] == ':') by {
        assert(w.subrange(i, i + rn)[23 + v1] == w[i + (23 + v1)]);
        assert(r[23 + v1] == b[7]);
    }
    assert(w[i2 + 6] == '"') by {
        assert(w.subrange(i, i + rn)[24 + v1] == w[i + (24 + v1)]);
        assert(r[24 + v1] == b[8]);
    }
    assert forall|k: int| 0 <= k < v2 implies w.subrange(i2 + 7, i2 + 7 + v2)[k] == e2[k] by {
        assert(w.subrange(i2 + 7, i2 + 7 + v2)[k] == w[i2 + 7 + k]);
        assert(w.subrange(i, i + rn)[25 + v1 + k] == w[i + (25 + v1 + k)]);
        assert(r[25 + v1 + k] == e2[k]);
    }
    assert(w.subrange(i2 + 4 + 3, i2 + 4 + 3 + v2) =~= e2);
    assert(w[i2 + 7 + v2] == '"') by {
        assert(w.subrange(i, i + rn)[25 + v1 + v2] == w[i + (25 + v1 + v2)]);
        assert(r[25 + v1 + v2] == c[0]);
    }
    lemma_member_parses(w, i2, uk, e.url);
    let m2 = MemberModel { key: uk, value: e.url };
    let m2e = i2 + 3 + v2 + 5;
    assert(parse_member(w, i2) == Some((m2, m2e)));
    // The third member: its key is the category label.
    assert(plain_key(tk));
    let i3 = i + 27 + v1 + v2;
    assert(w[i + 26 + v1 + v2] == ',') by {
        assert(w.subrange(i, i + rn)[26 + v1 + v2] == w[i + (26 + v1 + v2)]);
        assert(r[26 + v1 + v2] == c[1]);
    }
    assert(w[i3] == '"') by {
        assert(w.subrange(i, i + rn)[27 + v1 + v2] == w[i + (27 + v1 + v2)]);
        assert(r[27 + v1 + v2] == c[2]);
    }
    assert forall|k: int| 0 <= k < 14 implies w.subrange(i3 + 1, i3 + 15)[k] == tk[k] by {
        assert(w.subrange(i3 + 1, i3 + 15)[k] == w[i3 + 1 + k]);
        assert(w.subrange(i, i + rn)[28 + v1 + v2 + k] == w[i + (28 + v1 + v2 + k)]);
        assert(r[28 + v1 + v2 + k] == c[3 + k]);
    }
    assert(w.subrange(i3 + 1, i3 + 1 + 14) =~= tk);
    assert(w[i3 + 15] == '"') by {
        assert(w.subrange(i, i + rn)[42 + v1 + v2] == w[i + (42 + v1 + v2)]);
        assert(r[42 + v1 + v2] == c[17]);
    }
    assert(w[i3 + 16] == ':') by {
        assert(w.subrange(i, i + rn)[43 + v1 + v2] == w[i + (43 + v1 + v2)]);
        assert(r[43 + v1 + v2] == c[18]);
    }
    assert(w[i3 + 17] == '"') by {
        assert(w.subrange(i, i + rn)[44 + v1 + v2] == w[i + (44 + v1 + v2)]);
        assert(r[44 + v1 + v2] == c[19]);
    }
    assert forall|k: int| 0 <= k < v3 implies w.subrange(i3 + 18, i3 + 18 + v3)[k] == e3[k] by {
        assert(w.subrange(i3 + 18, i3 + 18 + v3)[k] == w[i3 + 18 + k]);
        assert(w.subrange(i, i + rn)[45 + v1 + v2 + k] == w[i + (45 + v1 + v2 + k)]);
        assert(r[45 + v1 + v2 + k] == e3[k]);
    }
    assert(w.subrange(i3 + 4 + 14, i3 + 4 + 14 + v3) =~= e3);
    assert(w[i3 + 18 + v3] == '"') by {
        assert(w.subrange(i, i + rn)[45 + v1 + v2 + v3] == w[i + (45 + v1 + v2 + v3)]);
        assert(r[45 + v1 + v2 + v3] == d[0]);
    }
    lemma_member_parses(w, i3, tk, e.type_of_change);
    let m3 = MemberModel { key: tk, value: e.type_of_change };
    let m3e = i3 + 14 + v3 + 5;
    assert(parse_member(w, i3) == Some((m3, m3e)));
    // The object walk: first member, then two comma-led members, then the
    // closing brace.
    assert(w[m3e] == '}') by {
        assert(w.subrange(i, i + rn)[46 + v1 + v2 + v3] == w[i + (46 + v1 + v2 + v3)]);
        assert(r[46 + v1 + v2 + v3] == d[1]);
    }
    assert(skip_ws(w, i + 1) == i + 1);
    assert(skip_ws(w, m1e) == m1e);
    assert(skip_ws(w, i2) == i2);
    assert(skip_ws(w, m2e) == m2e);
    assert(skip_ws(w, i3) == i3);
    assert(skip_ws(w, m3e) == m3e);
    let ms = seq![m1, m2, m3];
    assert(parse_members_rest(w, m3e, ms) == Some((ms, m3e + 1)));
    assert(seq![m1, m2].push(m3) =~= ms);
    assert(parse_members_rest(w, m2e, seq![m1, m2]) == Some((ms, m3e + 1)));
    assert(seq![m1].push(m2) =~= seq![m1, m2]);
    assert(parse_members_rest(w, m1e, seq![m1]) == Some((ms, m3e + 1)));
    assert(parse_object(w, i) == Some((ms, m3e + 1)));
    assert(m3e + 1 == i + rn);
    // The three members describe exactly the entry.
    assert(ms.drop_last() =~= seq![m1, m2]);
    assert(seq![m1, m2].drop_last() =~= seq![m1]);
    assert(seq![m1].drop_last() =~= Seq::<MemberModel>::empty());
    assert(count_key(Seq::<MemberModel>::empty(), dk) == 0);
    assert(count_key(Seq::<MemberModel>::empty(), uk) == 0);
    assert(count_key(Seq::<MemberModel>::empty(), tk) == 0);
    assert(count_key(seq![m1], dk) == 1 && count_key(seq![m1], uk) == 0 && count_key(
        seq![m1],
        tk,
    ) == 0);
    assert(count_key(seq![m1, m2], dk) == 1 && count_key(seq![m1, m2], uk) == 1 && count_key(
        seq![m1, m2],
        tk,
    ) == 0);
    assert(count_key(ms, dk) == 1 && count_key(ms, uk) == 1 && count_key(ms, tk) == 1);
    assert(value_of_key(seq![m1], dk) == e.description);
    assert(value_of_key(seq![m1, m2], dk) == e.description && value_of_key(seq![m1, m2], uk)
        == e.url);
    assert(value_of_key(ms, dk) == e.description && value_of_key(ms, uk) == e.url
        && value_of_key(ms, tk) == e.type_of_change);
    assert(entry_of_members(ms) == Some(
        EntryModel {
            description: e.description,
            url: e.url,
            type_of_change: e.type_of_change,
        },
    ));
    assert(EntryModel { description: e.description, url: e.url, type_of_change: e.type_of_change }
        =~= e);
}

/// The rendering of the elements after the first one: a comma before each,
/// then the closing bracket.
spec fn render_array_tail(es: Seq<EntryModel>) -> Seq<char>
    decreases es.len(),
{
    if es.len() == 0 {
        seq![']']
    } else {
        seq![','] + render_entry(es[0]) + render_array_tail(es.drop_first())
    }
}

proof fn lemma_render_items_first(es: Seq<EntryModel>)
    requires
        es.len() >= 1,
    ensures
        es.len() == 1 ==> render_items(es) == render_entry(es[0]),
        es.len() > 1 ==> render_items(es) == render_entry(es[0]) + ","@ + render_items(
            es.drop_first(),
        ),
    decreases es.len(),
{
    if es.len() == 1 {
        assert(es.last() == es[0]);
    } else if es.len() == 2 {
        assert(es.drop_last() =~= seq![es[0]]);
        assert(seq![es[0]].last() == es[0]);
        assert(render_items(seq![es[0]]) == render_entry(es[0]));
        assert(es.drop_first() =~= seq![es[1]]);
        assert(seq![es[1]].last() == es[1]);
        assert(render_items(seq![es[1]]) == render_entry(es[1]));
        assert(es.last() == es[1]);
        assert(render_items(es) == render_items(es.drop_last()) + ","@ + render_entry(es.last()));
        assert(render_items(es) == render_entry(es[0]) + ","@ + render_items(es.drop_first()));
    } else {
        lemma_render_items_first(es.drop_last());
        assert(es.drop_last()[0] == es[0]);
        assert(es.drop_last().drop_first() =~= es.drop_first().drop_last());
        assert(es.drop_first().last() == es.last());
        assert(render_items(es.drop_first()) == render_items(es.drop_first().drop_last()) + ","@
            + render_entry(es.last()));
        assert(render_items(es) == (render_entry(es[0]) + ","@ + render_items(
            es.drop_last().drop_first(),
        )) + ","@ + render_entry(es.last()));
        assert((render_entry(es[0]) + ","@ + render_items(es.drop_last().drop_first())) + ","@
            + render_entry(es.last()) =~= render_entry(es[0]) + ","@ + (render_items(
            es.drop_last().drop_first(),
        ) + ","@ + render_entry(es.last())));
        assert(render_entry(es[0]) + ","@ + render_items(es.drop_first()) == render_entry(es[0])
            + ","@ + (render_items(es.drop_last().drop_first()) + ","@ + render_entry(
            es.last(),
        )));
        assert(render_items(es) == render_entry(es[0]) + ","@ + render_items(es.drop_first()));
    }
}

proof fn lemma_items_plus_bracket(es: Seq<EntryModel>)
    requires
        es.len() >= 1,
    ensures
        render_items(es) + seq![']'] == render_entry(es[0]) + render_array_tail(es.drop_first()),
    decreases es.len(),
{
    reveal_strlit(",");
    lemma_render_items_first(es);
    if es.len() == 1 {
        assert(es.drop_first() =~= Seq::<EntryModel>::empty());
        assert(render_items(es) + seq![']'] =~= render_entry(es[0]) + render_array_tail(
            es.drop_first(),
        ));
    } else {
        let df = es.drop_first();
        lemma_items_plus_bracket(df);
        assert(","@ =~= seq![',']);
        assert(render_array_tail(df) == seq![','] + render_entry(df[0]) + render_array_tail(
            df.drop_first(),
        ));
        assert(render_items(df) + seq![']'] == render_entry(df[0]) + render_array_tail(
            df.drop_first(),
        ));
        let lhs_mid = render_items(df) + seq![']'];
        assert(seq![','] + lhs_mid =~= render_array_tail(df));
        assert(render_items(es) + seq![']'] =~= render_entry(es[0]) + (seq![','] + lhs_mid));
        assert(render_items(es) + seq![']'] == render_entry(es[0]) + render_array_tail(df));
    }
}

proof fn lemma_entries_rest_round_trip(
    w: Seq<char>,
    pos: int,
    acc: Seq<EntryModel>,
    rest: Seq<EntryModel>,
)
    requires
        0 <= pos,
        pos + render_array_tail(rest).len() <= w.len(),
        w.subrange(pos, pos + render_array_tail(rest).len()) == render_array_tail(rest),
    ensures
        parse_entries_rest(w, pos, acc) == Some(
            (acc + rest, pos + render_array_tail(rest).len() as int),
        ),
    decreases rest.len(),
{
    reveal_strlit("{\"description\":\"");
    let t = render_array_tail(rest);
    let tn = t.len() as int;
    if rest.len() == 0 {
        assert(w[pos] == ']') by {
            assert(w.subrange(pos, pos + tn)[0] == w[pos]);
        }
        assert(skip_ws(w, pos) == pos);
        assert(acc + rest =~= acc);
    } else {
        let e0 = rest[0];
        let r0 = render_entry(e0);
        let rn0 = r0.len() as int;
        let t2 = render_array_tail(rest.drop_first());
        assert(t == seq![','] + r0 + t2);
        assert(tn == 1 + rn0 + t2.len());
        assert(w[pos] == ',') by {
            assert(w.subrange(pos, pos + tn)[0] == w[pos]);
            assert(t[0] == ',');
        }
        assert(skip_ws(w, pos) == pos);
        assert forall|k: int| 0 <= k < rn0 implies w.subrange(pos + 1, pos + 1 + rn0)[k]
            == r0[k] by {
            assert(w.subrange(pos + 1, pos + 1 + rn0)[k] == w[pos + 1 + k]);
            assert(w.subrange(pos, pos + tn)[1 + k] == w[pos + (1 + k)]);
            assert(t[1 + k] == r0[k]);
        }
        assert(w.subrange(pos + 1, pos + 1 + rn0) =~= r0);
        assert(w[pos + 1] == '{') by {
            assert(w.subrange(pos + 1, pos + 1 + rn0)[0] == w[pos + 1]);
            assert(r0[0] == "{\"description\":\""@[0]);
        }
        assert(skip_ws(w, pos + 1) == pos + 1);
        lemma_entry_round_trip(w, pos + 1, e0);
        let mid = pos + 1 + rn0;
        assert forall|k: int| 0 <= k < t2.len() implies w.subrange(
            mid,
            mid + t2.len() as int,
        )[k] == t2[k] by {
            assert(w.subrange(mid, mid + t2.len() as int)[k] == w[mid + k]);
            assert(w.subrange(pos, pos + tn)[1 + rn0 + k] == w[pos + (1 + rn0 + k)]);
            assert(t[1 + rn0 + k] == t2[k]);
        }
        assert(w.subrange(mid, mid + t2.len() as int) =~= t2);
        lemma_entries_rest_round_trip(w, mid, acc.push(e0), rest.drop_first());
        assert(acc.push(e0) + rest.drop_first() =~= acc + rest);
        assert(parse_entries_rest(w, pos, acc) == Some((acc + rest, pos + tn)));
    }
}

/// Parsing inverts rendering: the canonical JSON text of any digest decodes
/// back to exactly that digest.
#[verifier::rlimit(100)]
pub proof fn lemma_render_parse_round_trip(es: Seq<EntryModel>)
    ensures
        spec_parse_entries(spec_render_entries(es)) == Some(es),
{
    reveal_strlit("[");
    reveal_strlit("]");
    reveal_strlit("{\"description\":\"");
    let w = spec_render_entries(es);
    let wn = w.len() as int;
    assert(w == "["@ + render_items(es) + "]"@);
    assert(w[0] == '[');
    assert(skip_ws(w, 0) == 0);
    if es.len() == 0 {
        assert(render_items(es) =~= Seq::<char>::empty());
        assert(wn == 2);
        assert(w[1] == ']');
        assert(skip_ws(w, 1) == 1);
        assert(parse_array(w, 0) == Some((Seq::<EntryModel>::empty(), 2int)));
        assert(skip_ws(w, 2) == 2);
        assert(Seq::<EntryModel>::empty() =~= es);
    } else {
        lemma_items_plus_bracket(es);
        let e0 = es[0];
        let r0 = render_entry(e0);
        let rn0 = r0.len() as int;
        let t2 = render_array_tail(es.drop_first());
        assert("["@ =~= seq!['[']);
        assert("]"@ =~= seq![']']);
        assert(w =~= seq!['['] + (render_items(es) + seq![']']));
        assert(render_items(es) + seq![']'] == r0 + t2);
        assert(seq!['['] + (r0 + t2) =~= seq!['['] + r0 + t2);
        assert(w == seq!['['] + r0 + t2);
        assert(wn == 1 + rn0 + t2.len());
        assert forall|k: int| 0 <= k < rn0 implies w.subrange(1, 1 + rn0)[k] == r0[k] by {
            assert(w.subrange(1, 1 + rn0)[k] == w[1 + k]);
            assert(w[1 + k] == (seq!['['] + r0 + t2)[1 + k]);
        }
        assert(w.subrange(1, 1 + rn0) =~= r0);
        assert(w[1] == '{') by {
            assert(w.subrange(1, 1 + rn0)[0] == w[1]);
            assert(r0[0] == "{\"description\":\""@[0]);
        }
        assert(skip_ws(w, 1) == 1);
        lemma_entry_round_trip(w, 1, e0);
        let mid = 1 + rn0;
        assert forall|k: int| 0 <= k < t2.len() implies w.subrange(
            mid,
            mid + t2.len() as int,
        )[k] == t2[k] by {
            assert(w.subrange(mid, mid + t2.len() as int)[k] == w[mid + k]);
            assert(w[mid + k] == (seq!['['] + r0 + t2)[mid + k]);
        }
        assert(w.subrange(mid, mid + t2.len() as int) =~= t2);
        lemma_entries_rest_round_trip(w, mid, seq![e0], es.drop_first());
        assert(seq![e0] + es.drop_first() =~= es);
        assert(parse_array(w, 0) == Some((es, wn)));
        assert(skip_ws(w, wn) == wn);
    }
}

} // verus!
