//! Full-text search over the help topics: markdown stripped to plain prose,
//! case-folded haystacks, matches ranked title-first then by position, and
//! snippets cut at character boundaries. Positions are byte offsets into
//! the UTF-8 text, as string slicing uses them.
use vstd::prelude::*;
use crate::text::{chars_of, push_char, push_chars};
use crate::help::{lemma_topic_ids_unique, topics, topic_table, HelpTopic};

verus! {

/// Unicode lower-casing of a text, as `str::to_lowercase` computes it.
pub uninterp spec fn lowercase(s: Seq<char>) -> Seq<char>;

/// Unicode `White_Space` property, which `char::is_whitespace` reports: tab
/// to carriage return, space, next line, no-break space, ogham space mark,
/// the en quad to hair space block, line and paragraph separators, narrow
/// no-break space, medium mathematical space and ideographic space.
pub open spec fn unicode_whitespace(c: char) -> bool {
    let v = c as u32;
    ||| 0x09 <= v <= 0x0D
    ||| v == 0x20
    ||| v == 0x85
    ||| v == 0xA0
    ||| v == 0x1680
    ||| 0x2000 <= v <= 0x200A
    ||| v == 0x2028
    ||| v == 0x2029
    ||| v == 0x202F
    ||| v == 0x205F
    ||| v == 0x3000
}

/// Lower-case a text; `str::to_lowercase`. The empty text stays empty.
#[verifier::external_body]
pub(crate) fn to_lowercase(s: &str) -> (r: String)
    ensures
        r@ == lowercase(s@),
        s@.len() == 0 ==> r@.len() == 0,
{
    s.to_lowercase()
}

/// Whether a character is white space (Unicode `White_Space`, as
/// `char::is_whitespace` reports it).
fn is_whitespace(c: char) -> (r: bool)
    ensures
        r == unicode_whitespace(c),
{
    let v = c as u32;
    (0x09 <= v && v <= 0x0D) || v == 0x20 || v == 0x85 || v == 0xA0 || v == 0x1680 || (0x2000 <= v && v
        <= 0x200A) || v == 0x2028 || v == 0x2029 || v == 0x202F || v == 0x205F || v == 0x3000
}

/// Byte length of a text: the length of its UTF-8 bytes.
fn str_byte_len(s: &str) -> (r: usize)
    ensures
        r == byte_len(s@),
{
    let b = s.as_bytes();
    proof {
        lemma_encode_len(s@);
    }
    b.len()
}

/// Bytes the character takes in UTF-8.
pub open spec fn utf8_len(c: char) -> nat {
    let v = c as u32;
    if v < 0x80 {
        1
    } else if v < 0x800 {
        2
    } else if v < 0x10000 {
        3
    } else {
        4
    }
}

/// Bytes the text takes in UTF-8.
pub open spec fn byte_len(s: Seq<char>) -> nat
    decreases s.len(),
{
    if s.len() == 0 {
        0
    } else {
        byte_len(s.drop_last()) + utf8_len(s.last())
    }
}

proof fn lemma_byte_len_first(s: Seq<char>)
    requires
        s.len() > 0,
    ensures
        byte_len(s) == utf8_len(s[0]) + byte_len(s.drop_first()),
    decreases s.len(),
{
    if s.len() > 1 {
        let t = s.drop_first();
        lemma_byte_len_first(s.drop_last());
        assert(s.drop_last().drop_first() =~= t.drop_last());
        assert(s.drop_last()[0] == s[0]);
        assert(t.last() == s.last());
        assert(byte_len(t) == byte_len(t.drop_last()) + utf8_len(t.last()));
        assert(byte_len(s) == byte_len(s.drop_last()) + utf8_len(s.last()));
    } else {
        assert(byte_len(s.drop_last()) == 0);
        assert(byte_len(s.drop_first()) == 0);
        assert(s.last() == s[0]);
    }
}

/// The UTF-8 encoding of a text is `byte_len` bytes long.
proof fn lemma_encode_len(s: Seq<char>)
    ensures
        vstd::utf8::encode_utf8(s).len() == byte_len(s),
    decreases s.len(),
{
    if s.len() > 0 {
        lemma_encode_len(s.drop_first());
        lemma_byte_len_first(s);
        vstd::utf8::char_is_scalar(s[0]);
    }
}

/// Byte offset of character `k` of `s`.
pub open spec fn byte_offset(s: Seq<char>, k: int) -> nat {
    byte_len(s.take(k))
}

/// `b` is a character boundary of `s`.
pub open spec fn is_boundary(s: Seq<char>, b: int) -> bool {
    exists|k: int| 0 <= k <= s.len() && byte_offset(s, k) == b
}

proof fn lemma_byte_offset_step(s: Seq<char>, k: int)
    requires
        0 <= k < s.len(),
    ensures
        byte_offset(s, k + 1) == byte_offset(s, k) + utf8_len(s[k]),
{
    assert(s.take(k + 1).drop_last() =~= s.take(k));
}

proof fn lemma_byte_offset_mono(s: Seq<char>, a: int, b: int)
    requires
        0 <= a <= b <= s.len(),
    ensures
        byte_offset(s, a) + (b - a) <= byte_offset(s, b),
    decreases b - a,
{
    if a < b {
        lemma_byte_offset_mono(s, a, b - 1);
        lemma_byte_offset_step(s, b - 1);
    }
}

proof fn lemma_byte_offset_full(s: Seq<char>)
    ensures
        byte_offset(s, s.len() as int) == byte_len(s),
        byte_offset(s, 0) == 0,
{
    assert(s.take(s.len() as int) =~= s);
    assert(s.take(0) =~= Seq::<char>::empty());
}

fn utf8_width(c: char) -> (r: usize)
    ensures
        r == utf8_len(c),
{
    let v = c as u32;
    if v < 0x80 {
        1
    } else if v < 0x800 {
        2
    } else if v < 0x10000 {
        3
    } else {
        4
    }
}

/// Byte offsets of every character of `v`, and of its end.
fn byte_offsets(v: &Vec<char>) -> (r: Vec<usize>)
    requires
        byte_len(v@) <= usize::MAX,
    ensures
        r@.len() == v@.len() + 1,
        forall|k: int| 0 <= k <= v@.len() ==> #[trigger] r@[k] == byte_offset(v@, k),
{
    let mut r: Vec<usize> = Vec::new();
    let mut off: usize = 0;
    let mut k: usize = 0;
    proof {
        lemma_byte_offset_full(v@);
    }
    r.push(0);
    while k < v.len()
        invariant
            k <= v@.len(),
            byte_len(v@) <= usize::MAX,
            r@.len() == k + 1,
            off == byte_offset(v@, k as int),
            forall|j: int| 0 <= j <= k ==> #[trigger] r@[j] == byte_offset(v@, j),
        decreases v@.len() - k,
    {
        proof {
            lemma_byte_offset_step(v@, k as int);
            lemma_byte_offset_mono(v@, k as int + 1, v@.len() as int);
            lemma_byte_offset_full(v@);
        }
        off = off + utf8_width(v[k]);
        k = k + 1;
        r.push(off);
    }
    r
}

/// The largest character boundary of `s` not above `i`.
#[verifier::opaque]
pub open spec fn spec_floor_boundary(s: Seq<char>, i: int) -> int {
    choose|b: int| is_boundary(s, b) && b <= i && forall|c: int| is_boundary(s, c) && c <= i ==> c <= b
}

/// The smallest character boundary of `s` not below `i`; `i` itself when it
/// is at or past the end.
#[verifier::opaque]
pub open spec fn spec_ceil_boundary(s: Seq<char>, i: int) -> int {
    if i >= byte_len(s) {
        i
    } else {
        choose|b: int| is_boundary(s, b) && b >= i && forall|c: int| is_boundary(s, c) && c >= i ==> b <= c
    }
}

/// Character index whose offset is the largest boundary not above `i`.
fn floor_char_index(offs: &Vec<usize>, i: usize) -> (k: usize)
    requires
        offs@.len() >= 1,
        offs@[0] == 0,
        forall|a: int, b: int| 0 <= a < b < offs@.len() ==> offs@[a] < offs@[b],
    ensures
        k < offs@.len(),
        offs@[k as int] <= i,
        forall|j: int| 0 <= j < offs@.len() && offs@[j] <= i ==> j <= k,
{
    let mut k: usize = 0;
    while k < offs.len() - 1 && offs[k + 1] <= i
        invariant
            k < offs@.len(),
            offs@[k as int] <= i,
            forall|a: int, b: int| 0 <= a < b < offs@.len() ==> offs@[a] < offs@[b],
            forall|j: int| 0 <= j <= k ==> offs@[j] <= i,
        decreases offs@.len() - k,
    {
        k = k + 1;
    }
    proof {
        assert forall|j: int| 0 <= j < offs@.len() && offs@[j] <= i implies j <= k by {
            if j > k {
                assert(k + 1 < offs@.len());
                assert(offs@[k + 1] > i || j == k + 1);
                if j > k + 1 {
                    assert(offs@[k + 1] < offs@[j]);
                }
            }
        }
    }
    k
}

/// Character index whose offset is the smallest boundary not below `i`,
/// for `i` at most the text's length.
fn ceil_char_index(offs: &Vec<usize>, i: usize) -> (k: usize)
    requires
        offs@.len() >= 1,
        i <= offs@.last(),
        forall|a: int, b: int| 0 <= a < b < offs@.len() ==> offs@[a] < offs@[b],
    ensures
        k < offs@.len(),
        offs@[k as int] >= i,
        forall|j: int| 0 <= j < offs@.len() && offs@[j] >= i ==> k <= j,
{
    let mut k: usize = 0;
    while offs[k] < i
        invariant
            k < offs@.len(),
            i <= offs@.last(),
            forall|a: int, b: int| 0 <= a < b < offs@.len() ==> offs@[a] < offs@[b],
            forall|j: int| 0 <= j < k ==> offs@[j] < i,
        decreases offs@.len() - k,
    {
        if k == offs.len() - 1 {
            assert(offs@[k as int] == offs@.last());
        }
        k = k + 1;
    }
    proof {
        assert forall|j: int| 0 <= j < offs@.len() && offs@[j] >= i implies k <= j by {
            if j < k {
                assert(offs@[j] < i);
            }
        }
    }
    k
}

proof fn lemma_offsets_strict(s: Seq<char>, offs: Seq<usize>)
    requires
        offs.len() == s.len() + 1,
        forall|k: int| 0 <= k <= s.len() ==> #[trigger] offs[k] == byte_offset(s, k),
    ensures
        forall|a: int, b: int| 0 <= a < b < offs.len() ==> offs[a] < offs[b],
        offs[0] == 0,
        offs.last() == byte_len(s),
{
    assert forall|a: int, b: int| 0 <= a < b < offs.len() implies offs[a] < offs[b] by {
        lemma_byte_offset_mono(s, a, b);
    }
    lemma_byte_offset_full(s);
}

/// Largest character boundary of `s` not above `i`.
pub fn floor_boundary(s: &str, i: usize) -> (r: usize)
    requires
        byte_len(s@) <= usize::MAX,
    ensures
        r == spec_floor_boundary(s@, i as int),
        is_boundary(s@, r as int),
        r <= i,
{
    let v = chars_of(s);
    let offs = byte_offsets(&v);
    proof {
        lemma_offsets_strict(v@, offs@);
    }
    let k = floor_char_index(&offs, i);
    let r = offs[k];
    proof {
        reveal(spec_floor_boundary);
        assert(is_boundary(s@, r as int));
        assert forall|c: int| is_boundary(s@, c) && c <= i implies c <= r by {
            let j = choose|j: int| 0 <= j <= s@.len() && byte_offset(s@, j) == c;
            assert(offs@[j] == c);
        }
        let b = spec_floor_boundary(s@, i as int);
        assert(is_boundary(s@, b) && b <= i && forall|c: int| is_boundary(s@, c) && c <= i ==> c <= b);
    }
    r
}

/// Smallest character boundary of `s` not below `i`; `i` when it is at or
/// past the end.
pub fn ceil_boundary(s: &str, i: usize) -> (r: usize)
    requires
        byte_len(s@) <= usize::MAX,
    ensures
        r == spec_ceil_boundary(s@, i as int),
        i < byte_len(s@) ==> is_boundary(s@, r as int) && r >= i,
        i >= byte_len(s@) ==> r == i,
{
    let v = chars_of(s);
    let offs = byte_offsets(&v);
    proof {
        lemma_offsets_strict(v@, offs@);
    }
    let len = offs[offs.len() - 1];
    if i >= len {
        proof {
            reveal(spec_ceil_boundary);
        }
        return i;
    }
    let k = ceil_char_index(&offs, i);
    let r = offs[k];
    proof {
        reveal(spec_ceil_boundary);
        assert(is_boundary(s@, r as int));
        assert forall|c: int| is_boundary(s@, c) && c >= i implies r <= c by {
            let j = choose|j: int| 0 <= j <= s@.len() && byte_offset(s@, j) == c;
            assert(offs@[j] == c);
        }
        let b = spec_ceil_boundary(s@, i as int);
        assert(is_boundary(s@, b) && b >= i && forall|c: int| is_boundary(s@, c) && c >= i ==> b <= c);
    }
    r
}


/// Leading white-space characters of `s`.
pub open spec fn lead_ws(s: Seq<char>) -> nat
    decreases s.len(),
{
    if s.len() > 0 && unicode_whitespace(s[0]) {
        1 + lead_ws(s.drop_first())
    } else {
        0
    }
}

/// Trailing white-space characters of `s`.
pub open spec fn trail_ws(s: Seq<char>) -> nat
    decreases s.len(),
{
    if s.len() > 0 && unicode_whitespace(s.last()) {
        1 + trail_ws(s.drop_last())
    } else {
        0
    }
}

/// `s` without leading and trailing white space; `str::trim`.
pub open spec fn spec_trim(s: Seq<char>) -> Seq<char> {
    if lead_ws(s) >= s.len() {
        Seq::empty()
    } else {
        s.subrange(lead_ws(s) as int, s.len() - trail_ws(s))
    }
}

proof fn lemma_lead_ws_bound(s: Seq<char>)
    ensures
        lead_ws(s) <= s.len(),
        forall|k: int| 0 <= k < lead_ws(s) ==> unicode_whitespace(#[trigger] s[k]),
        lead_ws(s) < s.len() ==> !unicode_whitespace(s[lead_ws(s) as int]),
    decreases s.len(),
{
    if s.len() > 0 && unicode_whitespace(s[0]) {
        lemma_lead_ws_bound(s.drop_first());
        assert forall|k: int| 0 <= k < lead_ws(s) implies unicode_whitespace(#[trigger] s[k]) by {
            if k > 0 {
                assert(s[k] == s.drop_first()[k - 1]);
            }
        }
    }
}

proof fn lemma_trail_ws_bound(s: Seq<char>)
    ensures
        trail_ws(s) <= s.len(),
        forall|k: int| s.len() - trail_ws(s) <= k < s.len() ==> unicode_whitespace(#[trigger] s[k]),
        trail_ws(s) < s.len() ==> !unicode_whitespace(s[s.len() - 1 - trail_ws(s)]),
    decreases s.len(),
{
    if s.len() > 0 && unicode_whitespace(s.last()) {
        lemma_trail_ws_bound(s.drop_last());
        assert forall|k: int| s.len() - trail_ws(s) <= k < s.len() implies unicode_whitespace(#[trigger] s[k]) by {
            if k < s.len() - 1 {
                assert(s[k] == s.drop_last()[k]);
            }
        }
    }
}

proof fn lemma_lead_ws_prefix(s: Seq<char>, k: int)
    requires
        0 <= k <= s.len(),
        forall|j: int| 0 <= j < k ==> unicode_whitespace(#[trigger] s[j]),
        k < s.len() ==> !unicode_whitespace(s[k]),
    ensures
        lead_ws(s) == k,
    decreases k,
{
    if k > 0 {
        assert forall|j: int| 0 <= j < k - 1 implies unicode_whitespace(#[trigger] s.drop_first()[j]) by {
            assert(s.drop_first()[j] == s[j + 1]);
        }
        if k - 1 < s.drop_first().len() {
            assert(s.drop_first()[k - 1] == s[k]);
        }
        lemma_lead_ws_prefix(s.drop_first(), k - 1);
    }
}

proof fn lemma_trail_ws_suffix(s: Seq<char>, k: int)
    requires
        0 <= k <= s.len(),
        forall|j: int| s.len() - k <= j < s.len() ==> unicode_whitespace(#[trigger] s[j]),
        k < s.len() ==> !unicode_whitespace(s[s.len() - 1 - k]),
    ensures
        trail_ws(s) == k,
    decreases k,
{
    if k > 0 {
        assert forall|j: int| s.drop_last().len() - (k - 1) <= j < s.drop_last().len() implies unicode_whitespace(
            #[trigger] s.drop_last()[j],
        ) by {
            assert(s.drop_last()[j] == s[j]);
        }
        if k - 1 < s.drop_last().len() {
            assert(s.drop_last()[s.drop_last().len() - 1 - (k - 1)] == s[s.len() - 1 - k]);
        }
        lemma_trail_ws_suffix(s.drop_last(), k - 1);
    }
}

/// The range `[a, b)` of `v` that `str::trim` keeps.
fn trim_range(v: &Vec<char>) -> (r: (usize, usize))
    ensures
        r.0 <= r.1 <= v@.len(),
        v@.subrange(r.0 as int, r.1 as int) == spec_trim(v@),
{
    let n = v.len();
    let mut a: usize = 0;
    while a < n && is_whitespace(v[a])
        invariant
            a <= n,
            n == v@.len(),
            forall|j: int| 0 <= j < a ==> unicode_whitespace(#[trigger] v@[j]),
        decreases n - a,
    {
        a = a + 1;
    }
    proof {
        lemma_lead_ws_prefix(v@, a as int);
    }
    if a == n {
        proof {
            assert(v@.subrange(a as int, a as int) =~= spec_trim(v@));
        }
        return (a, a);
    }
    let mut b: usize = n;
    while b > a && is_whitespace(v[b - 1])
        invariant
            a < n,
            a <= b <= n,
            n == v@.len(),
            !unicode_whitespace(v@[a as int]),
            forall|j: int| b <= j < n ==> unicode_whitespace(#[trigger] v@[j]),
        decreases b,
    {
        b = b - 1;
    }
    proof {
        assert(b > a);
        lemma_trail_ws_suffix(v@, n - b);
    }
    (a, b)
}

/// A string holding `v[a..b]`.
fn string_of_range(v: &Vec<char>, a: usize, b: usize) -> (r: String)
    requires
        a <= b <= v@.len(),
    ensures
        r@ == v@.subrange(a as int, b as int),
{
    let mut out = String::new();
    let mut i: usize = a;
    while i < b
        invariant
            a <= i <= b,
            b <= v@.len(),
            out@ == v@.subrange(a as int, i as int),
        decreases b - i,
    {
        push_char(&mut out, v[i]);
        assert(out@ =~= v@.subrange(a as int, i as int + 1));
        i = i + 1;
    }
    out
}

/// `s` without leading and trailing white space.
pub fn trim(s: &str) -> (r: String)
    ensures
        r@ == spec_trim(s@),
{
    let v = chars_of(s);
    let (a, b) = trim_range(&v);
    string_of_range(&v, a, b)
}

/// Markdown syntax characters dropped outright.
pub open spec fn is_markup(c: char) -> bool {
    c == '#' || c == '*' || c == '_' || c == '`' || c == '>' || c == '|' || c == '['
}

/// `s` after its first `)`, or nothing when there is none.
pub open spec fn after_close_paren(s: Seq<char>) -> Seq<char>
    decreases s.len(),
{
    if s.len() == 0 {
        s
    } else if s[0] == ')' {
        s.drop_first()
    } else {
        after_close_paren(s.drop_first())
    }
}

pub proof fn lemma_after_close_paren_shorter(s: Seq<char>)
    ensures
        after_close_paren(s).len() <= s.len(),
        after_close_paren(s) == s.skip(s.len() - after_close_paren(s).len()),
    decreases s.len(),
{
    if s.len() > 0 && s[0] != ')' {
        lemma_after_close_paren_shorter(s.drop_first());
        assert(s.drop_first().skip(s.drop_first().len() - after_close_paren(s.drop_first()).len()) =~= s.skip(
            s.len() - after_close_paren(s).len(),
        ));
    }
    if s.len() > 0 && s[0] == ')' {
        assert(s.drop_first() =~= s.skip(1));
    }
    if s.len() == 0 {
        assert(s.skip(0) =~= s);
    }
}

/// First pass of markdown stripping: markup characters dropped, a link's
/// `](target)` reduced to nothing (its text is kept), line breaks and tabs
/// turned into spaces.
pub open spec fn strip_markup(s: Seq<char>) -> Seq<char>
    decreases s.len(),
{
    if s.len() == 0 {
        Seq::empty()
    } else {
        let c = s[0];
        let rest = s.drop_first();
        if is_markup(c) {
            strip_markup(rest)
        } else if c == ']' {
            if rest.len() > 0 && rest[0] == '(' {
                proof {
                    lemma_after_close_paren_shorter(rest.drop_first());
                }
                strip_markup(after_close_paren(rest.drop_first()))
            } else {
                strip_markup(rest)
            }
        } else if c == '\n' || c == '\r' || c == '\t' {
            seq![' '] + strip_markup(rest)
        } else {
            seq![c] + strip_markup(rest)
        }
    }
}

/// Second pass: runs of spaces collapsed to one. `prev_space` says whether
/// a space was just emitted.
pub open spec fn collapse_spaces(s: Seq<char>, prev_space: bool) -> Seq<char>
    decreases s.len(),
{
    if s.len() == 0 {
        Seq::empty()
    } else if s[0] == ' ' {
        if prev_space {
            collapse_spaces(s.drop_first(), true)
        } else {
            seq![' '] + collapse_spaces(s.drop_first(), true)
        }
    } else {
        seq![s[0]] + collapse_spaces(s.drop_first(), false)
    }
}

/// Markdown reduced to plain prose.
pub open spec fn spec_strip_markdown(md: Seq<char>) -> Seq<char> {
    spec_trim(collapse_spaces(strip_markup(md), false))
}

/// Strip common markdown syntax so the text reads as plain prose: link text
/// is kept and its `(target)` dropped; headings, emphasis, code ticks,
/// quotes and table pipes are removed; white space is collapsed and trimmed.
pub fn strip_markdown(md: &str) -> (r: String)
    ensures
        r@ == spec_strip_markdown(md@),
{
    let v = chars_of(md);
    let n = v.len();
    let mut out: Vec<char> = Vec::new();
    let mut i: usize = 0;
    proof {
        assert(v@.skip(0) =~= v@);
    }
    while i < n
        invariant
            n == v@.len(),
            i <= n,
            strip_markup(v@) == out@ + strip_markup(v@.skip(i as int)),
        decreases n - i,
    {
        let ghost rest_before = v@.skip(i as int);
        let c = v[i];
        assert(rest_before[0] == c);
        assert(rest_before.drop_first() =~= v@.skip(i as int + 1));
        i = i + 1;
        if c == '#' || c == '*' || c == '_' || c == '`' || c == '>' || c == '|' || c == '[' {
        } else if c == ']' {
            if i < n && v[i] == '(' {
                let ghost after_open = v@.skip(i as int + 1);
                assert(v@.skip(i as int).drop_first() =~= after_open);
                i = i + 1;
                let ghost i0 = i;
                let mut found = false;
                while i < n && !found
                    invariant
                        n == v@.len(),
                        i0 <= i <= n,
                        found ==> after_close_paren(after_open) == v@.skip(i as int),
                        !found ==> after_close_paren(after_open) == after_close_paren(v@.skip(i as int)),
                    decreases n - i,
                {
                    let d = v[i];
                    assert(v@.skip(i as int)[0] == d);
                    assert(v@.skip(i as int).drop_first() =~= v@.skip(i as int + 1));
                    i = i + 1;
                    if d == ')' {
                        found = true;
                    }
                }
                if !found {
                    assert(v@.skip(i as int).len() == 0);
                }
            }
        } else if c == '\n' || c == '\r' || c == '\t' {
            out.push(' ');
            assert(out@ + strip_markup(v@.skip(i as int)) =~= old_plus(out@.drop_last(), ' ', strip_markup(v@.skip(i as int))));
        } else {
            out.push(c);
            assert(out@ + strip_markup(v@.skip(i as int)) =~= old_plus(out@.drop_last(), c, strip_markup(v@.skip(i as int))));
        }
    }
    proof {
        assert(v@.skip(n as int) =~= Seq::<char>::empty());
        assert(out@ + Seq::<char>::empty() =~= out@);
    }
    let mut collapsed: Vec<char> = Vec::new();
    let mut prev_space = false;
    let mut j: usize = 0;
    proof {
        assert(out@.skip(0) =~= out@);
    }
    while j < out.len()
        invariant
            j <= out@.len(),
            collapse_spaces(out@, false) == collapsed@ + collapse_spaces(out@.skip(j as int), prev_space),
        decreases out@.len() - j,
    {
        let c = out[j];
        let ghost rest = out@.skip(j as int);
        assert(rest[0] == c);
        assert(rest.drop_first() =~= out@.skip(j as int + 1));
        if c == ' ' {
            if !prev_space {
                collapsed.push(' ');
                assert(collapsed@ + collapse_spaces(out@.skip(j as int + 1), true) =~= old_plus(
                    collapsed@.drop_last(),
                    ' ',
                    collapse_spaces(out@.skip(j as int + 1), true),
                ));
            }
            prev_space = true;
        } else {
            collapsed.push(c);
            assert(collapsed@ + collapse_spaces(out@.skip(j as int + 1), false) =~= old_plus(
                collapsed@.drop_last(),
                c,
                collapse_spaces(out@.skip(j as int + 1), false),
            ));
            prev_space = false;
        }
        j = j + 1;
    }
    proof {
        assert(out@.skip(out@.len() as int) =~= Seq::<char>::empty());
        assert(collapsed@ + Seq::<char>::empty() =~= collapsed@);
    }
    let (a, b) = trim_range(&collapsed);
    string_of_range(&collapsed, a, b)
}

pub open spec fn old_plus(prefix: Seq<char>, c: char, tail: Seq<char>) -> Seq<char> {
    prefix + (seq![c] + tail)
}

/// `needle` occurs in `hay` at character `k`.
pub open spec fn matches_at(hay: Seq<char>, needle: Seq<char>, k: int) -> bool {
    0 <= k && k + needle.len() <= hay.len() && hay.subrange(k, k + needle.len()) == needle
}

/// `k` is the first occurrence of `needle` in `hay`.
pub open spec fn is_first_match(hay: Seq<char>, needle: Seq<char>, k: int) -> bool {
    matches_at(hay, needle, k) && forall|j: int| 0 <= j < k ==> !matches_at(hay, needle, j)
}

/// Character index of the first occurrence of `needle` in `hay`.
pub open spec fn first_match(hay: Seq<char>, needle: Seq<char>) -> Option<int> {
    if exists|k: int| is_first_match(hay, needle, k) {
        Some(choose|k: int| is_first_match(hay, needle, k))
    } else {
        None
    }
}

/// Byte offset of the first occurrence of `needle` in `hay`; `str::find`.
pub open spec fn spec_find(hay: Seq<char>, needle: Seq<char>) -> Option<int> {
    match first_match(hay, needle) {
        Some(k) => Some(byte_offset(hay, k) as int),
        None => None,
    }
}

proof fn lemma_first_match_unique(hay: Seq<char>, needle: Seq<char>, k: int)
    requires
        is_first_match(hay, needle, k),
    ensures
        first_match(hay, needle) == Some(k),
{
    let j = choose|j: int| is_first_match(hay, needle, j);
    assert(is_first_match(hay, needle, j));
    if j < k {
        assert(!matches_at(hay, needle, j));
    } else if j > k {
        assert(!matches_at(hay, needle, k));
    }
}

fn matches_at_exec(hay: &Vec<char>, needle: &Vec<char>, k: usize) -> (r: bool)
    requires
        k + needle@.len() <= hay@.len(),
    ensures
        r == matches_at(hay@, needle@, k as int),
{
    let _n = hay.len();
    let mut i: usize = 0;
    while i < needle.len()
        invariant
            k + needle@.len() <= hay@.len(),
            hay@.len() <= usize::MAX,
            i <= needle@.len(),
            forall|j: int| 0 <= j < i ==> hay@[k + j] == needle@[j],
        decreases needle@.len() - i,
    {
        if hay[k + i] != needle[i] {
            assert(hay@.subrange(k as int, k + needle@.len())[i as int] != needle@[i as int]);
            return false;
        }
        i = i + 1;
    }
    assert(hay@.subrange(k as int, k + needle@.len()) =~= needle@);
    true
}

/// Character index of the first occurrence of `needle` in `hay`.
fn find_chars(hay: &Vec<char>, needle: &Vec<char>) -> (r: Option<usize>)
    ensures
        match r {
            Some(k) => first_match(hay@, needle@) == Some(k as int),
            None => first_match(hay@, needle@) is None,
        },
{
    if needle.len() > hay.len() {
        proof {
            if exists|k: int| is_first_match(hay@, needle@, k) {
                let k = choose|k: int| is_first_match(hay@, needle@, k);
                assert(matches_at(hay@, needle@, k));
            }
        }
        return None;
    }
    let last = hay.len() - needle.len();
    let mut k: usize = 0;
    while k <= last
        invariant
            last == hay@.len() - needle@.len(),
            forall|j: int| 0 <= j < k ==> !matches_at(hay@, needle@, j),
        decreases last + 1 - k,
    {
        if matches_at_exec(hay, needle, k) {
            proof {
                lemma_first_match_unique(hay@, needle@, k as int);
            }
            return Some(k);
        }
        if k == last {
            proof {
                if exists|j: int| is_first_match(hay@, needle@, j) {
                    let j = choose|j: int| is_first_match(hay@, needle@, j);
                    assert(matches_at(hay@, needle@, j));
                }
            }
            return None;
        }
        k = k + 1;
    }
    None
}

/// Byte offset of the first occurrence of `needle` in `hay`.
pub fn find(hay: &str, needle: &str) -> (r: Option<usize>)
    ensures
        match r {
            Some(b) => spec_find(hay@, needle@) == Some(b as int),
            None => spec_find(hay@, needle@) is None,
        },
{
    let _len = str_byte_len(hay);
    let hv = chars_of(hay);
    let nv = chars_of(needle);
    match find_chars(&hv, &nv) {
        Some(k) => {
            let offs = byte_offsets(&hv);
            Some(offs[k])
        },
        None => None,
    }
}

/// Characters kept on each side of a body match in a snippet.
pub const SNIPPET_RADIUS: usize = 70;

/// Character index of boundary `b` of `s`.
#[verifier::opaque]
pub open spec fn char_index_of(s: Seq<char>, b: int) -> int {
    choose|k: int| 0 <= k <= s.len() && byte_offset(s, k) == b
}

pub open spec fn ellipsis_if(cond: bool) -> Seq<char> {
    if cond {
        seq!['\u{2026}']
    } else {
        Seq::empty()
    }
}

/// Start of a snippet window: `SNIPPET_RADIUS` bytes before the match,
/// snapped back to a character boundary, or the beginning.
pub open spec fn snippet_start(plain: Seq<char>, pos: int, centered: bool) -> int {
    if centered {
        spec_floor_boundary(plain, if pos >= 70 { pos - 70 } else { 0 })
    } else {
        0
    }
}

/// End of a snippet window: twice the radius after its start, capped at the
/// text's end and snapped forward to a character boundary.
pub open spec fn snippet_end(plain: Seq<char>, start: int) -> int {
    let len = byte_len(plain) as int;
    spec_ceil_boundary(plain, if start + 140 <= len { start + 140 } else { len })
}

/// A short excerpt of `plain` around byte `pos`: the window, trimmed, with an
/// ellipsis in front when it does not start at the beginning and one behind
/// when text follows.
pub open spec fn spec_snippet(plain: Seq<char>, pos: int, centered: bool) -> Seq<char> {
    if plain.len() == 0 {
        Seq::empty()
    } else {
        let start = snippet_start(plain, pos, centered);
        let end = snippet_end(plain, start);
        ellipsis_if(start > 0) + spec_trim(plain.subrange(char_index_of(plain, start), char_index_of(plain, end)))
            + ellipsis_if(end < byte_len(plain))
    }
}

/// Character index of a boundary given by its byte offset.
fn boundary_char_index(offs: &Vec<usize>, b: usize) -> (k: usize)
    requires
        exists|j: int| 0 <= j < offs@.len() && offs@[j] == b,
    ensures
        k < offs@.len(),
        offs@[k as int] == b,
{
    let mut k: usize = 0;
    while k < offs.len()
        invariant
            exists|j: int| k <= j < offs@.len() && offs@[j] == b,
        decreases offs@.len() - k,
    {
        if offs[k] == b {
            return k;
        }
        k = k + 1;
    }
    k
}

proof fn lemma_char_index_of(s: Seq<char>, offs: Seq<usize>, k: int)
    requires
        offs.len() == s.len() + 1,
        forall|j: int| 0 <= j <= s.len() ==> #[trigger] offs[j] == byte_offset(s, j),
        0 <= k <= s.len(),
    ensures
        char_index_of(s, offs[k] as int) == k,
{
    reveal(char_index_of);
    lemma_offsets_strict(s, offs);
    let c = char_index_of(s, offs[k] as int);
    assert(0 <= k <= s.len() && byte_offset(s, k) == offs[k]);
    assert(0 <= c <= s.len() && byte_offset(s, c) == offs[k]);
    if c < k {
        assert(offs[c] < offs[k]);
    } else if c > k {
        assert(offs[k] < offs[c]);
    }
}

#[verifier::rlimit(80)]
fn snippet_window(plain: &str, v: &Vec<char>, pos: usize, centered: bool) -> (r: (usize, usize, usize, usize))
    requires
        v@ == plain@,
        v@.len() > 0,
    ensures
        r.0 == snippet_start(plain@, pos as int, centered),
        r.1 == snippet_end(plain@, r.0 as int),
        r.2 == char_index_of(plain@, r.0 as int),
        r.3 == char_index_of(plain@, r.1 as int),
        r.2 <= r.3 <= v@.len(),
        r.1 <= byte_len(plain@),
{
    let len = str_byte_len(plain);
    let start = if centered {
        floor_boundary(plain, pos.saturating_sub(SNIPPET_RADIUS))
    } else {
        0
    };
    let offs = byte_offsets(v);
    proof {
        lemma_offsets_strict(v@, offs@);
        lemma_byte_offset_full(v@);
        if !centered {
            assert(byte_offset(plain@, 0) == 0);
        }
        assert(is_boundary(plain@, start as int));
    }
    let target = if len >= SNIPPET_RADIUS * 2 && start <= len - SNIPPET_RADIUS * 2 {
        start + SNIPPET_RADIUS * 2
    } else {
        len
    };
    let end = ceil_boundary(plain, target);
    proof {
        if target >= len {
            assert(byte_offset(plain@, plain@.len() as int) == len);
        }
        assert(is_boundary(plain@, end as int));
        let ks = choose|k: int| 0 <= k <= plain@.len() && byte_offset(plain@, k) == start;
        assert(offs@[ks] == start);
        let ke = choose|k: int| 0 <= k <= plain@.len() && byte_offset(plain@, k) == end;
        assert(offs@[ke] == end);
    }
    let ks = boundary_char_index(&offs, start);
    let ke = boundary_char_index(&offs, end);
    proof {
        lemma_char_index_of(v@, offs@, ks as int);
        lemma_char_index_of(v@, offs@, ke as int);
        if ks > ke {
            assert(offs@[ke as int] < offs@[ks as int]);
        }
    }
    (start, end, ks, ke)
}

/// A short excerpt of `plain` around byte `pos`.
pub fn snippet(plain: &str, pos: usize, centered: bool) -> (r: String)
    ensures
        r@ == spec_snippet(plain@, pos as int, centered),
{
    let len = str_byte_len(plain);
    let v = chars_of(plain);
    if v.len() == 0 {
        return String::new();
    }
    let (start, end, ks, ke) = snippet_window(plain, &v, pos, centered);
    let mut out = String::new();
    if start > 0 {
        push_char(&mut out, '\u{2026}');
    }
    let piece = string_of_range(&v, ks, ke);
    let trimmed = trim(piece.as_str());
    let tv = chars_of(trimmed.as_str());
    push_chars(&mut out, tv.as_slice());
    if end < len {
        push_char(&mut out, '\u{2026}');
    }
    proof {
        assert(out@ =~= spec_snippet(plain@, pos as int, centered));
    }
    out
}

/// One ranked search result.
#[derive(Debug)]
pub struct SearchHit {
    pub id: &'static str,
    pub title: &'static str,
    pub snippet: String,
}

/// The mathematical content of a [`SearchHit`].
pub struct HitView {
    pub id: Seq<char>,
    pub title: Seq<char>,
    pub snippet: Seq<char>,
}

impl View for SearchHit {
    type V = HitView;

    open spec fn view(&self) -> HitView {
        HitView { id: self.id@, title: self.title@, snippet: self.snippet@ }
    }
}

/// A topic prepared for searching: case-folded title and body, and the
/// body as plain prose for snippets.
#[derive(Debug)]
pub struct SearchEntry {
    pub id: &'static str,
    pub title: &'static str,
    pub native_only: bool,
    pub title_lc: String,
    pub body_lc: String,
    pub body_plain: String,
}

/// The mathematical content of a [`SearchEntry`].
pub struct EntryView {
    pub id: Seq<char>,
    pub title: Seq<char>,
    pub native_only: bool,
    pub title_lc: Seq<char>,
    pub body_lc: Seq<char>,
    pub body_plain: Seq<char>,
}

impl View for SearchEntry {
    type V = EntryView;

    open spec fn view(&self) -> EntryView {
        EntryView {
            id: self.id@,
            title: self.title@,
            native_only: self.native_only,
            title_lc: self.title_lc@,
            body_lc: self.body_lc@,
            body_plain: self.body_plain@,
        }
    }
}

/// Markdown body of topic `i`: the `i`-th of `bodies`, empty when missing.
pub open spec fn body_text(bodies: Seq<Seq<char>>, i: int) -> Seq<char> {
    if 0 <= i < bodies.len() {
        bodies[i]
    } else {
        Seq::empty()
    }
}

/// The search entry of topic `i` with the given bodies.
pub open spec fn built_entry(bodies: Seq<Seq<char>>, i: int) -> EntryView {
    let row = topic_table()[i];
    let plain = spec_strip_markdown(body_text(bodies, i));
    EntryView {
        id: row.0,
        title: row.1,
        native_only: row.3,
        title_lc: lowercase(row.1),
        body_lc: lowercase(plain),
        body_plain: plain,
    }
}

/// Search entries of every topic, in table order.
pub open spec fn built_index(bodies: Seq<Seq<char>>) -> Seq<EntryView> {
    Seq::new(topic_table().len(), |i: int| built_entry(bodies, i))
}

pub open spec fn string_views(v: Seq<String>) -> Seq<Seq<char>> {
    v.map_values(|s: String| s@)
}

/// Rank of an entry for `needle`: bucket 0 and the byte position of a title
/// match, else bucket 1 and the position of a body match; none without a
/// match, or for a native-only topic in the web build.
pub open spec fn entry_rank(e: EntryView, needle: Seq<char>, web: bool) -> Option<(u8, int)> {
    if web && e.native_only {
        None
    } else {
        match spec_find(e.title_lc, needle) {
            Some(p) => Some((0u8, p)),
            None => match spec_find(e.body_lc, needle) {
                Some(p) => Some((1u8, p)),
                None => None,
            },
        }
    }
}

/// (bucket, position, entry) of every matching entry among the first `n`,
/// in entry order.
pub open spec fn ranked(entries: Seq<EntryView>, needle: Seq<char>, web: bool, n: int) -> Seq<(u8, int, int)>
    decreases n,
{
    if n <= 0 {
        Seq::empty()
    } else {
        let prev = ranked(entries, needle, web, n - 1);
        match entry_rank(entries[n - 1], needle, web) {
            Some((b, p)) => prev.push((b, p, n - 1)),
            None => prev,
        }
    }
}

/// Order of results: bucket, then position, then entry order.
pub open spec fn key_lt(a: (u8, int, int), b: (u8, int, int)) -> bool {
    a.0 < b.0 || (a.0 == b.0 && (a.1 < b.1 || (a.1 == b.1 && a.2 < b.2)))
}

pub open spec fn keys_sorted(keys: Seq<(u8, int, int)>) -> bool {
    forall|i: int, j: int| 0 <= i < j < keys.len() ==> key_lt(#[trigger] keys[i], #[trigger] keys[j])
}

pub open spec fn same_elements(a: Seq<(u8, int, int)>, b: Seq<(u8, int, int)>) -> bool {
    a.len() == b.len() && forall|x: (u8, int, int)| a.contains(x) <==> b.contains(x)
}

/// The hit for an entry ranked in `bucket` at `pos`: a body match is
/// excerpted around the match, a title match shows the body's opening.
pub open spec fn hit_for(e: EntryView, bucket: u8, pos: int) -> HitView {
    HitView {
        id: e.id,
        title: e.title,
        snippet: if bucket == 0 {
            spec_snippet(e.body_plain, 0, false)
        } else {
            spec_snippet(e.body_plain, pos, true)
        },
    }
}

/// `hits` are the matches of `needle`, ranked title matches first, then by
/// match position, then by topic order.
pub open spec fn hits_ok(entries: Seq<EntryView>, needle: Seq<char>, web: bool, hits: Seq<HitView>) -> bool {
    exists|keys: Seq<(u8, int, int)>|
        keys_sorted(keys) && same_elements(keys, ranked(entries, needle, web, entries.len() as int))
            && hits.len() == keys.len() && forall|i: int|
            0 <= i < hits.len() ==> #[trigger] hits[i] == hit_for(entries[keys[i].2], keys[i].0, keys[i].1)
}

pub open spec fn hits_view(v: Seq<SearchHit>) -> Seq<HitView> {
    v.map_values(|h: SearchHit| h@)
}

/// Search index over every topic.
#[derive(Debug)]
pub struct SearchIndex {
    entries: Vec<SearchEntry>,
}

pub open spec fn entries_view(v: Seq<SearchEntry>) -> Seq<EntryView> {
    v.map_values(|e: SearchEntry| e@)
}

pub open spec fn key_view(k: (u8, usize, usize)) -> (u8, int, int) {
    (k.0, k.1 as int, k.2 as int)
}

pub open spec fn keys_view(v: Seq<(u8, usize, usize)>) -> Seq<(u8, int, int)> {
    v.map_values(|k: (u8, usize, usize)| key_view(k))
}

fn key_le_pos(a: (u8, usize, usize), b: u8, p: usize) -> (r: bool)
    ensures
        r == (a.0 < b || (a.0 == b && a.1 <= p)),
{
    a.0 < b || (a.0 == b && a.1 <= p)
}

/// Insert a key after every key whose (bucket, position) is not above its
/// own; keys arrive in entry order, so the order stays strict.
fn insert_ranked(v: &mut Vec<(u8, usize, usize)>, k: (u8, usize, usize))
    requires
        keys_sorted(keys_view(old(v)@)),
        forall|i: int| 0 <= i < old(v)@.len() ==> old(v)@[i].2 < k.2,
    ensures
        keys_sorted(keys_view(final(v)@)),
        keys_view(final(v)@).len() == keys_view(old(v)@).len() + 1,
        forall|x: (u8, int, int)| keys_view(final(v)@).contains(x) <==> (keys_view(old(v)@).contains(x) || x == key_view(k)),
        forall|i: int| 0 <= i < final(v)@.len() ==> final(v)@[i].2 <= k.2,
{
    let ghost ov = keys_view(v@);
    let mut j: usize = 0;
    while j < v.len() && key_le_pos(v[j], k.0, k.1)
        invariant
            j <= v@.len(),
            forall|i: int| 0 <= i < j ==> (v@[i].0 < k.0 || (v@[i].0 == k.0 && v@[i].1 <= k.1)),
        decreases v@.len() - j,
    {
        j = j + 1;
    }
    v.insert(j, k);
    proof {
        let nv = keys_view(v@);
        assert(nv =~= ov.insert(j as int, key_view(k)));
        assert forall|a: int, b: int| 0 <= a < b < nv.len() implies key_lt(#[trigger] nv[a], #[trigger] nv[b]) by {
            if b < j {
                assert(nv[a] == ov[a] && nv[b] == ov[b]);
            } else if b == j {
                assert(nv[a] == ov[a]);
            } else if a == j {
                assert(nv[b] == ov[b - 1]);
                if b - 1 > j {
                    assert(key_lt(ov[j as int], ov[b - 1]));
                }
            } else if a < j {
                assert(nv[a] == ov[a] && nv[b] == ov[b - 1]);
                if a < b - 1 {
                    assert(key_lt(ov[a], ov[b - 1]));
                }
            } else {
                assert(nv[a] == ov[a - 1] && nv[b] == ov[b - 1]);
            }
        }
        assert forall|x: (u8, int, int)| nv.contains(x) <==> (ov.contains(x) || x == key_view(k)) by {
            if nv.contains(x) {
                let i = choose|i: int| 0 <= i < nv.len() && nv[i] == x;
                if i < j {
                    assert(ov[i] == x);
                } else if i > j {
                    assert(ov[i - 1] == x);
                }
            }
            if ov.contains(x) {
                let i = choose|i: int| 0 <= i < ov.len() && ov[i] == x;
                if i < j {
                    assert(nv[i] == x);
                } else {
                    assert(nv[i + 1] == x);
                }
            }
            if x == key_view(k) {
                assert(nv[j as int] == x);
            }
        }
    }
}

impl SearchIndex {
    /// Entries of the index.
    pub closed spec fn spec_entries(&self) -> Seq<EntryView> {
        entries_view(self.entries@)
    }

    /// Build the index over every topic, given their markdown bodies in
    /// table order (a missing body counts as empty). Native-only topics are
    /// kept and filtered at query time.
    pub fn build(bodies: &[String]) -> (r: Self)
        ensures
            r.spec_entries() == built_index(string_views(bodies@)),
    {
        let all = topics();
        let mut entries: Vec<SearchEntry> = Vec::new();
        let mut i: usize = 0;
        while i < all.len()
            invariant
                all@.len() == topic_table().len(),
                forall|k: int| 0 <= k < all@.len() ==> crate::help::topic_view(#[trigger] all@[k]) == topic_table()[k],
                i <= all@.len(),
                entries@.len() == i,
                forall|k: int| 0 <= k < i ==> (#[trigger] entries@[k])@ == built_entry(string_views(bodies@), k),
            decreases all@.len() - i,
        {
            let t: HelpTopic = all[i];
            let body: &str = if i < bodies.len() {
                bodies[i].as_str()
            } else {
                ""
            };
            proof {
                assert(crate::help::topic_view(all@[i as int]) == topic_table()[i as int]);
                if i >= bodies@.len() {
                    reveal_strlit("");
                }
                assert(body@ == body_text(string_views(bodies@), i as int));
            }
            let body_plain = strip_markdown(body);
            let title_lc = to_lowercase(t.title);
            let body_lc = to_lowercase(body_plain.as_str());
            entries.push(SearchEntry {
                id: t.id,
                title: t.title,
                native_only: t.native_only,
                title_lc,
                body_lc,
                body_plain,
            });
            i = i + 1;
        }
        let r = SearchIndex { entries };
        proof {
            assert(r.spec_entries() =~= built_index(string_views(bodies@)));
        }
        r
    }

    /// Rank the topics against an already case-folded `needle`.
    pub fn rank(&self, needle: &str, web: bool) -> (r: Vec<SearchHit>)
        ensures
            hits_ok(self.spec_entries(), needle@, web, hits_view(r@)),
    {
        let ghost ev = self.spec_entries();
        let mut keys: Vec<(u8, usize, usize)> = Vec::new();
        let mut e: usize = 0;
        while e < self.entries.len()
            invariant
                ev == entries_view(self.entries@),
                e <= self.entries@.len(),
                keys_sorted(keys_view(keys@)),
                same_elements(keys_view(keys@), ranked(ev, needle@, web, e as int)),
                forall|i: int| 0 <= i < keys@.len() ==> keys@[i].2 < e,
                forall|i: int| 0 <= i < keys@.len() ==> (keys@[i].2 as int) < ev.len(),
            decreases self.entries@.len() - e,
        {
            let entry = &self.entries[e];
            let ghost before = keys_view(keys@);
            assert(ev[e as int] == entry@);
            if !(web && entry.native_only) {
                match find(entry.title_lc.as_str(), needle) {
                    Some(pos) => {
                        insert_ranked(&mut keys, (0, pos, e));
                    },
                    None => match find(entry.body_lc.as_str(), needle) {
                        Some(pos) => {
                            insert_ranked(&mut keys, (1, pos, e));
                        },
                        None => {},
                    },
                }
            }
            proof {
                let r_next = ranked(ev, needle@, web, e as int + 1);
                let r_prev = ranked(ev, needle@, web, e as int);
                assert forall|x: (u8, int, int)| keys_view(keys@).contains(x) <==> r_next.contains(x) by {
                    match entry_rank(ev[e as int], needle@, web) {
                        Some((b, p)) => {
                            assert(r_next == r_prev.push((b, p, e as int)));
                            if r_next.contains(x) {
                                let i = choose|i: int| 0 <= i < r_next.len() && r_next[i] == x;
                                if i < r_prev.len() {
                                    assert(r_prev[i] == x);
                                }
                            }
                            if r_prev.contains(x) {
                                let i = choose|i: int| 0 <= i < r_prev.len() && r_prev[i] == x;
                                assert(r_next[i] == x);
                            }
                            if x == (b, p, e as int) {
                                assert(r_next[r_prev.len() as int] == x);
                            }
                        },
                        None => {},
                    }
                }
                assert(keys_view(keys@).len() == r_next.len());
            }
            e = e + 1;
        }
        let mut hits: Vec<SearchHit> = Vec::new();
        let mut i: usize = 0;
        while i < keys.len()
            invariant
                ev == entries_view(self.entries@),
                i <= keys@.len(),
                forall|q: int| 0 <= q < keys@.len() ==> (keys@[q].2 as int) < ev.len(),
                hits@.len() == i,
                forall|q: int|
                    0 <= q < i ==> (#[trigger] hits@[q])@ == hit_for(
                        ev[keys@[q].2 as int],
                        keys@[q].0,
                        keys@[q].1 as int,
                    ),
            decreases keys@.len() - i,
        {
            let (bucket, pos, idx) = keys[i];
            let entry = &self.entries[idx];
            assert(ev[idx as int] == entry@);
            let snip = if bucket == 0 {
                snippet(entry.body_plain.as_str(), 0, false)
            } else {
                snippet(entry.body_plain.as_str(), pos, true)
            };
            hits.push(SearchHit { id: entry.id, title: entry.title, snippet: snip });
            i = i + 1;
        }
        proof {
            let kv = keys_view(keys@);
            assert forall|q: int| 0 <= q < hits_view(hits@).len() implies #[trigger] hits_view(hits@)[q] == hit_for(
                ev[kv[q].2],
                kv[q].0,
                kv[q].1,
            ) by {
                assert(hits_view(hits@)[q] == hits@[q]@);
            }
            assert(hits_ok(ev, needle@, web, hits_view(hits@)));
        }
        hits
    }

    /// Rank topics against `query`, which is trimmed and case-folded first;
    /// nothing for a blank query. The web build leaves native-only topics out.
    pub fn query(&self, query: &str, web: bool) -> (r: Vec<SearchHit>)
        ensures
            spec_trim(query@).len() == 0 ==> r@.len() == 0,
            lowercase(spec_trim(query@)).len() == 0 ==> r@.len() == 0,
            lowercase(spec_trim(query@)).len() > 0 ==> hits_ok(
                self.spec_entries(),
                lowercase(spec_trim(query@)),
                web,
                hits_view(r@),
            ),
    {
        let trimmed = trim(query);
        let needle = to_lowercase(trimmed.as_str());
        if needle.as_str().is_empty() {
            return Vec::new();
        }
        self.rank(needle.as_str(), web)
    }
}
/// Every ranked key names a matching entry among the first `n`, with that
/// entry's bucket and position.
proof fn lemma_ranked_member(entries: Seq<EntryView>, needle: Seq<char>, web: bool, n: int, x: (u8, int, int))
    requires
        0 <= n <= entries.len(),
        ranked(entries, needle, web, n).contains(x),
    ensures
        0 <= x.2 < n,
        entry_rank(entries[x.2], needle, web) == Some((x.0, x.1)),
    decreases n,
{
    if n > 0 {
        let prev = ranked(entries, needle, web, n - 1);
        match entry_rank(entries[n - 1], needle, web) {
            Some((b, p)) => {
                let r = prev.push((b, p, n - 1));
                let i = choose|i: int| 0 <= i < r.len() && r[i] == x;
                if i < prev.len() {
                    assert(prev[i] == x);
                    lemma_ranked_member(entries, needle, web, n - 1, x);
                }
            },
            None => {
                lemma_ranked_member(entries, needle, web, n - 1, x);
            },
        }
    }
}

/// Title matches come first: in a ranked result list, any topic listed
/// before one whose title matches the query has a matching title too; and
/// the web build lists no native-only topic.
pub proof fn lemma_title_matches_rank_first(bodies: Seq<Seq<char>>, needle: Seq<char>, web: bool, hits: Seq<HitView>)
    requires
        hits_ok(built_index(bodies), needle, web, hits),
    ensures
        forall|i: int, j: int|
            0 <= i < j < hits.len() && #[trigger] spec_find(lowercase(hits[j].title), needle) is Some ==> #[trigger] spec_find(
                lowercase(hits[i].title),
                needle,
            ) is Some,
        forall|i: int|
            0 <= i < hits.len() ==> exists|k: int|
                0 <= k < topic_table().len() && #[trigger] hits[i].id == topic_table()[k].0 && !(web
                    && topic_table()[k].3),
{
    let entries = built_index(bodies);
    let n = entries.len() as int;
    let keys = choose|keys: Seq<(u8, int, int)>|
        keys_sorted(keys) && same_elements(keys, ranked(entries, needle, web, n)) && hits.len() == keys.len()
            && forall|i: int| 0 <= i < hits.len() ==> #[trigger] hits[i] == hit_for(entries[keys[i].2], keys[i].0, keys[i].1);
    assert forall|i: int| 0 <= i < keys.len() implies 0 <= (#[trigger] keys[i]).2 < n && entry_rank(
        entries[keys[i].2],
        needle,
        web,
    ) == Some((keys[i].0, keys[i].1)) by {
        assert(keys.contains(keys[i]));
        lemma_ranked_member(entries, needle, web, n, keys[i]);
    }
    assert forall|i: int, j: int|
        0 <= i < j < hits.len() && #[trigger] spec_find(lowercase(hits[j].title), needle) is Some implies #[trigger] spec_find(
            lowercase(hits[i].title),
            needle,
        ) is Some by {
        assert(hits[j] == hit_for(entries[keys[j].2], keys[j].0, keys[j].1));
        assert(hits[i] == hit_for(entries[keys[i].2], keys[i].0, keys[i].1));
        assert(keys[j].0 == 0);
        assert(key_lt(keys[i], keys[j]));
        assert(keys[i].0 == 0);
    }
    assert forall|i: int| 0 <= i < hits.len() implies exists|k: int|
        0 <= k < topic_table().len() && #[trigger] hits[i].id == topic_table()[k].0 && !(web && topic_table()[k].3) by {
        assert(hits[i] == hit_for(entries[keys[i].2], keys[i].0, keys[i].1));
        let k = keys[i].2;
        assert(hits[i].id == topic_table()[k].0);
    }
}

/// Whether `id` names a topic shown only in the native build.
pub open spec fn native_only_id(id: Seq<char>) -> bool {
    exists|k: int| 0 <= k < topic_table().len() && topic_table()[k].0 == id && topic_table()[k].3
}

/// Two strictly ordered key lists with the same members are the same list.
proof fn lemma_sorted_keys_unique(a: Seq<(u8, int, int)>, b: Seq<(u8, int, int)>)
    requires
        keys_sorted(a),
        keys_sorted(b),
        forall|x: (u8, int, int)| a.contains(x) <==> b.contains(x),
    ensures
        a == b,
    decreases a.len(),
{
    if a.len() == 0 {
        if b.len() > 0 {
            assert(b.contains(b[0]));
        }
        assert(a =~= b);
    } else {
        assert(a.contains(a[0]));
        let j = choose|j: int| 0 <= j < b.len() && b[j] == a[0];
        assert(b.contains(b[0]));
        let i = choose|i: int| 0 <= i < a.len() && a[i] == b[0];
        if j > 0 {
            assert(key_lt(b[0], b[j]));
            if i > 0 {
                assert(key_lt(a[0], a[i]));
            }
        }
        assert(a[0] == b[0]);
        let a1 = a.drop_first();
        let b1 = b.drop_first();
        assert forall|x: (u8, int, int)| a1.contains(x) <==> b1.contains(x) by {
            if a1.contains(x) {
                let k = choose|k: int| 0 <= k < a1.len() && a1[k] == x;
                assert(a[k + 1] == x);
                assert(key_lt(a[0], a[k + 1]));
                assert(b.contains(x));
                let m = choose|m: int| 0 <= m < b.len() && b[m] == x;
                assert(m != 0);
                assert(b1[m - 1] == x);
            }
            if b1.contains(x) {
                let k = choose|k: int| 0 <= k < b1.len() && b1[k] == x;
                assert(b[k + 1] == x);
                assert(key_lt(b[0], b[k + 1]));
                assert(a.contains(x));
                let m = choose|m: int| 0 <= m < a.len() && a[m] == x;
                assert(m != 0);
                assert(a1[m - 1] == x);
            }
        }
        lemma_sorted_keys_unique(a1, b1);
        assert(a =~= seq![a[0]] + a1);
        assert(b =~= seq![b[0]] + b1);
    }
}

/// Dropping keys keeps the rest in order.
proof fn lemma_filter_keys_sorted(s: Seq<(u8, int, int)>, p: spec_fn((u8, int, int)) -> bool)
    requires
        keys_sorted(s),
    ensures
        keys_sorted(s.filter(p)),
    decreases s.len(),
{
    if s.len() > 0 {
        let prefix = s.drop_last();
        assert(s =~= prefix.push(s.last()));
        lemma_filter_keys_sorted(prefix, p);
        prefix.lemma_filter_push(s.last(), p);
        let f = prefix.filter(p);
        if p(s.last()) {
            assert forall|i: int, j: int| 0 <= i < j < f.push(s.last()).len() implies key_lt(
                #[trigger] f.push(s.last())[i],
                #[trigger] f.push(s.last())[j],
            ) by {
                if j == f.len() {
                    assert(f.contains(f[i]));
                    prefix.lemma_filter_contains_rev(p, f[i]);
                    let k = choose|k: int| 0 <= k < prefix.len() && prefix[k] == f[i];
                    assert(s[k] == f[i]);
                    assert(key_lt(s[k], s[s.len() - 1]));
                }
            }
        }
    }
}

/// The web ranking is the native ranking without the native-only topics.
proof fn lemma_ranked_web(entries: Seq<EntryView>, needle: Seq<char>, n: int)
    requires
        0 <= n <= entries.len(),
    ensures
        ranked(entries, needle, true, n) == ranked(entries, needle, false, n).filter(
            |k: (u8, int, int)| !entries[k.2].native_only,
        ),
    decreases n,
{
    let p = |k: (u8, int, int)| !entries[k.2].native_only;
    if n <= 0 {
        reveal(Seq::filter);
        assert(ranked(entries, needle, false, n).filter(p) =~= Seq::<(u8, int, int)>::empty());
    } else {
        lemma_ranked_web(entries, needle, n - 1);
        let prev = ranked(entries, needle, false, n - 1);
        match entry_rank(entries[n - 1], needle, false) {
            Some((b, q)) => {
                prev.lemma_filter_push((b, q, n - 1), p);
            },
            None => {},
        }
    }
}

/// Keeping some keys and then making hits of them is making hits of all
/// keys and keeping the hits of the kept keys.
proof fn lemma_filter_map_hits(
    keys: Seq<(u8, int, int)>,
    entries: Seq<EntryView>,
    p: spec_fn((u8, int, int)) -> bool,
    q: spec_fn(HitView) -> bool,
)
    requires
        forall|i: int| 0 <= i < keys.len() ==> q(hit_for(entries[(#[trigger] keys[i]).2], keys[i].0, keys[i].1)) == p(keys[i]),
    ensures
        keys.map_values(|k: (u8, int, int)| hit_for(entries[k.2], k.0, k.1)).filter(q) == keys.filter(p).map_values(
            |k: (u8, int, int)| hit_for(entries[k.2], k.0, k.1),
        ),
    decreases keys.len(),
{
    let f = |k: (u8, int, int)| hit_for(entries[k.2], k.0, k.1);
    if keys.len() == 0 {
        reveal(Seq::filter);
        assert(keys.map_values(f).filter(q) =~= Seq::<HitView>::empty());
        assert(keys.filter(p).map_values(f) =~= Seq::<HitView>::empty());
    } else {
        let prefix = keys.drop_last();
        let last = keys.last();
        assert(keys =~= prefix.push(last));
        assert(keys.map_values(f) =~= prefix.map_values(f).push(f(last)));
        lemma_filter_map_hits(prefix, entries, p, q);
        prefix.map_values(f).lemma_filter_push(f(last), q);
        prefix.lemma_filter_push(last, p);
        assert(q(f(keys[keys.len() - 1])) == p(keys[keys.len() - 1]));
        if p(last) {
            assert(prefix.filter(p).push(last).map_values(f) =~= prefix.filter(p).map_values(f).push(f(last)));
        }
    }
}

/// On a built index, [`SearchIndex::query`] with `web` set returns what it
/// returns without it, minus the hits on native-only topics; the order and
/// the snippets are the same.
pub proof fn lemma_web_results_are_native_without_native_only(
    bodies: Seq<Seq<char>>,
    needle: Seq<char>,
    web_hits: Seq<HitView>,
    native_hits: Seq<HitView>,
)
    requires
        hits_ok(built_index(bodies), needle, true, web_hits),
        hits_ok(built_index(bodies), needle, false, native_hits),
    ensures
        web_hits == native_hits.filter(|h: HitView| !native_only_id(h.id)),
{
    let entries = built_index(bodies);
    let n = entries.len() as int;
    let f = |k: (u8, int, int)| hit_for(entries[k.2], k.0, k.1);
    let p = |k: (u8, int, int)| !entries[k.2].native_only;
    let q = |h: HitView| !native_only_id(h.id);
    let kw = choose|keys: Seq<(u8, int, int)>|
        keys_sorted(keys) && same_elements(keys, ranked(entries, needle, true, n)) && web_hits.len() == keys.len()
            && forall|i: int| 0 <= i < web_hits.len() ==> #[trigger] web_hits[i] == hit_for(entries[keys[i].2], keys[i].0, keys[i].1);
    let kn = choose|keys: Seq<(u8, int, int)>|
        keys_sorted(keys) && same_elements(keys, ranked(entries, needle, false, n)) && native_hits.len() == keys.len()
            && forall|i: int| 0 <= i < native_hits.len() ==> #[trigger] native_hits[i] == hit_for(entries[keys[i].2], keys[i].0, keys[i].1);
    lemma_ranked_web(entries, needle, n);
    lemma_filter_keys_sorted(kn, p);
    let kf = kn.filter(p);
    assert forall|x: (u8, int, int)| kw.contains(x) <==> kf.contains(x) by {
        let rn = ranked(entries, needle, false, n);
        if kw.contains(x) {
            assert(rn.filter(p).contains(x));
            rn.lemma_filter_contains_rev(p, x);
            assert(kn.contains(x));
            let i = choose|i: int| 0 <= i < kn.len() && kn[i] == x;
            #[allow(deprecated)]
            rn.filter_lemma(p);
            let j = choose|j: int| 0 <= j < rn.filter(p).len() && rn.filter(p)[j] == x;
            assert(p(x));
            kn.lemma_filter_contains(p, i);
        }
        if kf.contains(x) {
            kn.lemma_filter_contains_rev(p, x);
            #[allow(deprecated)]
            kn.filter_lemma(p);
            let j = choose|j: int| 0 <= j < kf.len() && kf[j] == x;
            assert(p(x));
            assert(rn.contains(x));
            let i = choose|i: int| 0 <= i < rn.len() && rn[i] == x;
            rn.lemma_filter_contains(p, i);
        }
    }
    lemma_sorted_keys_unique(kw, kf);
    lemma_topic_ids_unique();
    assert forall|i: int| 0 <= i < kn.len() implies q(f(#[trigger] kn[i])) == p(kn[i]) by {
        assert(kn.contains(kn[i]));
        lemma_ranked_member(entries, needle, false, n, kn[i]);
        let t = kn[i].2;
        if native_only_id(f(kn[i]).id) {
            let k = choose|k: int| 0 <= k < topic_table().len() && topic_table()[k].0 == f(kn[i]).id && topic_table()[k].3;
            if k != t {
                if k < t {
                    assert(topic_table()[k].0 != topic_table()[t].0);
                } else {
                    assert(topic_table()[t].0 != topic_table()[k].0);
                }
            }
        } else {
            if topic_table()[t].3 {
                assert(native_only_id(topic_table()[t].0));
            }
        }
    }
    lemma_filter_map_hits(kn, entries, p, q);
    assert(native_hits =~= kn.map_values(f));
    assert(web_hits =~= kf.map_values(f));
}


/// A character that plain prose from [`strip_markdown`] never holds:
/// markup, link brackets, line breaks and tabs.
pub open spec fn markdown_char(c: char) -> bool {
    is_markup(c) || c == ']' || c == '\n' || c == '\r' || c == '\t'
}

/// No character of `s` is a markdown character.
pub open spec fn plain_text(s: Seq<char>) -> bool {
    forall|k: int| 0 <= k < s.len() ==> !markdown_char(#[trigger] s[k])
}

/// No two spaces in a row.
pub open spec fn single_spaced(s: Seq<char>) -> bool {
    forall|k: int| 0 <= k < s.len() - 1 ==> !(#[trigger] s[k] == ' ' && s[k + 1] == ' ')
}

proof fn lemma_plain_cons(c: char, s: Seq<char>)
    requires
        !markdown_char(c),
        plain_text(s),
    ensures
        plain_text(seq![c] + s),
{
    assert forall|k: int| 0 <= k < (seq![c] + s).len() implies !markdown_char(#[trigger] (seq![c] + s)[k]) by {
        if k > 0 {
            assert((seq![c] + s)[k] == s[k - 1]);
        }
    }
}

proof fn lemma_strip_markup_plain(s: Seq<char>)
    ensures
        plain_text(strip_markup(s)),
    decreases s.len(),
{
    if s.len() > 0 {
        let c = s[0];
        let rest = s.drop_first();
        if is_markup(c) {
            lemma_strip_markup_plain(rest);
        } else if c == ']' {
            if rest.len() > 0 && rest[0] == '(' {
                lemma_after_close_paren_shorter(rest.drop_first());
                lemma_strip_markup_plain(after_close_paren(rest.drop_first()));
            } else {
                lemma_strip_markup_plain(rest);
            }
        } else if c == '\n' || c == '\r' || c == '\t' {
            lemma_strip_markup_plain(rest);
            lemma_plain_cons(' ', strip_markup(rest));
        } else {
            lemma_strip_markup_plain(rest);
            lemma_plain_cons(c, strip_markup(rest));
        }
    }
}

proof fn lemma_strip_markup_of_plain(s: Seq<char>)
    requires
        plain_text(s),
    ensures
        strip_markup(s) == s,
    decreases s.len(),
{
    if s.len() > 0 {
        assert(!markdown_char(s[0]));
        let rest = s.drop_first();
        assert forall|k: int| 0 <= k < rest.len() implies !markdown_char(#[trigger] rest[k]) by {
            assert(rest[k] == s[k + 1]);
        }
        lemma_strip_markup_of_plain(rest);
        assert(s =~= seq![s[0]] + rest);
    }
}

proof fn lemma_collapse_spaces(s: Seq<char>, prev: bool)
    requires
        plain_text(s),
    ensures
        plain_text(collapse_spaces(s, prev)),
        single_spaced(collapse_spaces(s, prev)),
        prev && collapse_spaces(s, prev).len() > 0 ==> collapse_spaces(s, prev)[0] != ' ',
    decreases s.len(),
{
    if s.len() > 0 {
        let rest = s.drop_first();
        assert forall|k: int| 0 <= k < rest.len() implies !markdown_char(#[trigger] rest[k]) by {
            assert(rest[k] == s[k + 1]);
        }
        if s[0] == ' ' {
            lemma_collapse_spaces(rest, true);
            if !prev {
                let t = collapse_spaces(rest, true);
                lemma_plain_cons(' ', t);
                assert forall|k: int| 0 <= k < (seq![' '] + t).len() - 1 implies !(#[trigger] (seq![' '] + t)[k] == ' '
                    && (seq![' '] + t)[k + 1] == ' ') by {
                    if k > 0 {
                        assert((seq![' '] + t)[k] == t[k - 1]);
                        assert((seq![' '] + t)[k + 1] == t[k]);
                    } else {
                        assert((seq![' '] + t)[1] == t[0]);
                    }
                }
            }
        } else {
            lemma_collapse_spaces(rest, false);
            let t = collapse_spaces(rest, false);
            lemma_plain_cons(s[0], t);
            assert forall|k: int| 0 <= k < (seq![s[0]] + t).len() - 1 implies !(#[trigger] (seq![s[0]] + t)[k] == ' '
                && (seq![s[0]] + t)[k + 1] == ' ') by {
                if k > 0 {
                    assert((seq![s[0]] + t)[k] == t[k - 1]);
                    assert((seq![s[0]] + t)[k + 1] == t[k]);
                }
            }
        }
    }
}

proof fn lemma_collapse_single_spaced(s: Seq<char>, prev: bool)
    requires
        single_spaced(s),
        prev && s.len() > 0 ==> s[0] != ' ',
    ensures
        collapse_spaces(s, prev) == s,
    decreases s.len(),
{
    if s.len() > 0 {
        let rest = s.drop_first();
        assert forall|k: int| 0 <= k < rest.len() - 1 implies !(#[trigger] rest[k] == ' ' && rest[k + 1] == ' ') by {
            assert(rest[k] == s[k + 1]);
            assert(rest[k + 1] == s[k + 2]);
        }
        if s[0] == ' ' {
            if rest.len() > 0 {
                assert(!(s[0] == ' ' && s[1] == ' '));
                assert(rest[0] == s[1]);
            }
            lemma_collapse_single_spaced(rest, true);
        } else {
            lemma_collapse_single_spaced(rest, false);
        }
        assert(s =~= seq![s[0]] + rest);
    }
}

/// What trimming gives: a stretch of `s` that neither starts nor ends with
/// white space, and that trimming leaves as it is.
proof fn lemma_trim_ends(s: Seq<char>)
    ensures
        ({
            let t = spec_trim(s);
            &&& t.len() > 0 ==> !unicode_whitespace(t[0]) && !unicode_whitespace(t[t.len() - 1])
            &&& spec_trim(t) == t
            &&& exists|a: int, b: int| 0 <= a <= b <= s.len() && t == s.subrange(a, b)
        }),
{
    lemma_lead_ws_bound(s);
    lemma_trail_ws_bound(s);
    let t = spec_trim(s);
    if lead_ws(s) >= s.len() {
        assert(t == s.subrange(0, 0));
        assert(lead_ws(t) == 0);
    } else {
        let a = lead_ws(s) as int;
        let b = s.len() - trail_ws(s);
        if trail_ws(s) >= s.len() - a {
            assert(unicode_whitespace(s[a]));
        }
        assert(a < b);
        assert(t[0] == s[a]);
        assert(t[t.len() - 1] == s[b - 1]);
        assert(lead_ws(t) == 0);
        assert(trail_ws(t) == 0);
        assert(t.subrange(0, t.len() as int) =~= t);
    }
}

proof fn lemma_subrange_plain(s: Seq<char>, a: int, b: int)
    requires
        0 <= a <= b <= s.len(),
        plain_text(s),
        single_spaced(s),
    ensures
        plain_text(s.subrange(a, b)),
        single_spaced(s.subrange(a, b)),
{
    let t = s.subrange(a, b);
    assert forall|k: int| 0 <= k < t.len() implies !markdown_char(#[trigger] t[k]) by {
        assert(t[k] == s[a + k]);
    }
    assert forall|k: int| 0 <= k < t.len() - 1 implies !(#[trigger] t[k] == ' ' && t[k + 1] == ' ') by {
        assert(t[k] == s[a + k]);
        assert(t[k + 1] == s[a + k + 1]);
    }
}

/// Stripped markdown is plain prose: no markup, link brackets, line breaks
/// or tabs; never two spaces in a row; no white space at either end; and
/// stripping it again changes nothing.
pub proof fn lemma_strip_markdown_is_plain(md: Seq<char>)
    ensures
        plain_text(spec_strip_markdown(md)),
        single_spaced(spec_strip_markdown(md)),
        spec_strip_markdown(md).len() > 0 ==> !unicode_whitespace(spec_strip_markdown(md)[0])
            && !unicode_whitespace(spec_strip_markdown(md).last()),
        spec_strip_markdown(spec_strip_markdown(md)) == spec_strip_markdown(md),
{
    let m = strip_markup(md);
    lemma_strip_markup_plain(md);
    lemma_collapse_spaces(m, false);
    let c = collapse_spaces(m, false);
    let r = spec_trim(c);
    lemma_trim_ends(c);
    let (a, b) = choose|a: int, b: int| 0 <= a <= b <= c.len() && r == c.subrange(a, b);
    lemma_subrange_plain(c, a, b);
    lemma_strip_markup_of_plain(r);
    lemma_collapse_single_spaced(r, false);
}

proof fn lemma_after_close_paren_skips(url: Seq<char>, rest: Seq<char>)
    requires
        !url.contains(')'),
    ensures
        after_close_paren(url + seq![')'] + rest) == rest,
    decreases url.len(),
{
    let s = url + seq![')'] + rest;
    if url.len() == 0 {
        assert(s[0] == ')');
        assert(s.drop_first() =~= rest);
    } else {
        assert(s[0] == url[0]);
        assert(url[0] != ')');
        assert(!url.drop_first().contains(')')) by {
            if url.drop_first().contains(')') {
                let k = choose|k: int| 0 <= k < url.drop_first().len() && url.drop_first()[k] == ')';
                assert(url[k + 1] == ')');
            }
        }
        assert(s.drop_first() =~= url.drop_first() + seq![')'] + rest);
        lemma_after_close_paren_skips(url.drop_first(), rest);
    }
}

proof fn lemma_strip_markup_prefix(text: Seq<char>, rest: Seq<char>)
    requires
        !text.contains(']'),
    ensures
        strip_markup(text + rest) == strip_markup(text) + strip_markup(rest),
    decreases text.len(),
{
    let s = text + rest;
    if text.len() == 0 {
        assert(s =~= rest);
        assert(strip_markup(text) =~= Seq::<char>::empty());
        assert(strip_markup(text) + strip_markup(rest) =~= strip_markup(rest));
    } else {
        let t = text.drop_first();
        assert(s[0] == text[0]);
        assert(text[0] != ']');
        assert(!t.contains(']')) by {
            if t.contains(']') {
                let k = choose|k: int| 0 <= k < t.len() && t[k] == ']';
                assert(text[k + 1] == ']');
            }
        }
        assert(s.drop_first() =~= t + rest);
        lemma_strip_markup_prefix(t, rest);
        let c = text[0];
        if is_markup(c) {
        } else if c == '\n' || c == '\r' || c == '\t' {
            assert(seq![' '] + (strip_markup(t) + strip_markup(rest)) =~= (seq![' '] + strip_markup(t))
                + strip_markup(rest));
        } else {
            assert(seq![c] + (strip_markup(t) + strip_markup(rest)) =~= (seq![c] + strip_markup(t))
                + strip_markup(rest));
        }
    }
}

proof fn lemma_strip_markup_link(text: Seq<char>, url: Seq<char>, rest: Seq<char>)
    requires
        !text.contains(']'),
        !url.contains(')'),
    ensures
        strip_markup(seq!['['] + text + seq![']', '('] + url + seq![')'] + rest) == strip_markup(text)
            + strip_markup(rest),
{
    let tail = seq![']', '('] + url + seq![')'] + rest;
    let s = seq!['['] + text + seq![']', '('] + url + seq![')'] + rest;
    assert(s[0] == '[');
    assert(s.drop_first() =~= text + tail);
    lemma_strip_markup_prefix(text, tail);
    assert(tail[0] == ']');
    assert(tail.drop_first()[0] == '(');
    assert(tail.drop_first().drop_first() =~= url + seq![')'] + rest);
    lemma_after_close_paren_skips(url, rest);
}

/// A link keeps its text and drops its target: `[text](url)` strips to
/// what `text` strips to, followed by what comes after the link (for link
/// text without `]` and a target without `)`), so a whole document that
/// is one link strips to its text.
pub proof fn lemma_strip_markdown_link(text: Seq<char>, url: Seq<char>, rest: Seq<char>)
    requires
        !text.contains(']'),
        !url.contains(')'),
    ensures
        strip_markup(seq!['['] + text + seq![']', '('] + url + seq![')'] + rest) == strip_markup(text)
            + strip_markup(rest),
        spec_strip_markdown(seq!['['] + text + seq![']', '('] + url + seq![')']) == spec_strip_markdown(text),
{
    lemma_strip_markup_link(text, url, rest);
    let e = Seq::<char>::empty();
    lemma_strip_markup_link(text, url, e);
    let s0 = seq!['['] + text + seq![']', '('] + url + seq![')'];
    assert(s0 + e =~= s0);
    assert(strip_markup(e) =~= e);
    assert(strip_markup(text) + e =~= strip_markup(text));
}

} // verus!
