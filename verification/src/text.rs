//! Strings of the mapping: fixed-size byte fields, ended by a NUL byte or by the
//! end of the field, and the ASCII comparisons made on what they hold.

use vstd::prelude::*;
use vstd::utf8::*;

verus! {

/// The text that `String::from_utf8_lossy` makes of `bytes`.
pub uninterp spec fn utf8_lossy(bytes: Seq<u8>) -> Seq<char>;

/// Calls `String::from_utf8_lossy`. Its result depends on the bytes alone; bytes
/// that are valid UTF-8 are decoded as they are, and in others the replacement
/// character stands for what is invalid. No NUL character comes of bytes without a NUL
/// byte. How much each replacement stands for is left to the standard library.
#[verifier::external_body]
fn from_utf8_lossy(bytes: &[u8]) -> (text: String)
    ensures
        text@ == utf8_lossy(bytes@),
        valid_utf8(bytes@) ==> text@ == decode_utf8(bytes@),
        !valid_utf8(bytes@) ==> text@.contains('\u{fffd}'),
        !bytes@.contains(0) ==> !text@.contains('\0'),
{
    String::from_utf8_lossy(bytes).into_owned()
}

/// `String::push` puts one character at the end.
pub assume_specification[ String::push ](s: &mut String, c: char)
    ensures
        final(s)@ == old(s)@.push(c),
;

/// The view of an optional string.
pub open spec fn optional_text(text: Option<String>) -> Option<Seq<char>> {
    match text {
        Some(text) => Some(text@),
        None => None,
    }
}

/// The characters of `text`, in order.
pub fn chars_of(text: &str) -> (chars: Vec<char>)
    ensures
        chars@ == text@,
{
    let mut chars: Vec<char> = Vec::new();
    for c in it: text.chars()
        invariant
            it.seq() == text@,
            chars@ == text@.take(it.index() as int),
    {
        chars.push(c);
    }
    chars
}

/// The string made of `chars[from..to]`.
pub fn string_of(chars: &Vec<char>, from: usize, to: usize) -> (text: String)
    requires
        from <= to <= chars@.len(),
    ensures
        text@ == chars@.subrange(from as int, to as int),
{
    let mut text: String = String::new();
    let mut i: usize = from;
    while i < to
        invariant
            from <= i <= to <= chars@.len(),
            text@ == chars@.subrange(from as int, i as int),
        decreases to - i,
    {
        text.push(chars[i]);
        i = i + 1;
    }
    text
}

/// Unicode's `White_Space` property.
pub open spec fn is_white_space(c: char) -> bool {
    let v = c as u32;
    ||| 0x09 <= v <= 0x0d
    ||| v == 0x20
    ||| v == 0x85
    ||| v == 0xa0
    ||| v == 0x1680
    ||| 0x2000 <= v <= 0x200a
    ||| v == 0x2028
    ||| v == 0x2029
    ||| v == 0x202f
    ||| v == 0x205f
    ||| v == 0x3000
}

/// Whether `c` is white space.
pub fn white_space(c: char) -> (yes: bool)
    ensures
        yes == is_white_space(c),
{
    let v: u32 = c as u32;
    (0x09 <= v && v <= 0x0d) || v == 0x20 || v == 0x85 || v == 0xa0 || v == 0x1680 || (0x2000 <= v
        && v <= 0x200a) || v == 0x2028 || v == 0x2029 || v == 0x202f || v == 0x205f || v == 0x3000
}

/// `text` without its leading white space.
pub open spec fn without_leading(text: Seq<char>) -> Seq<char>
    decreases text.len(),
{
    if text.len() > 0 && is_white_space(text[0]) {
        without_leading(text.drop_first())
    } else {
        text
    }
}

/// `text` without its trailing white space.
pub open spec fn without_trailing(text: Seq<char>) -> Seq<char>
    decreases text.len(),
{
    if text.len() > 0 && is_white_space(text.last()) {
        without_trailing(text.drop_last())
    } else {
        text
    }
}

/// `text` without the white space around it.
pub open spec fn trimmed(text: Seq<char>) -> Seq<char> {
    without_trailing(without_leading(text))
}

/// What is trimmed of its leading white space is an end of the text, and begins with none.
proof fn lemma_without_leading(text: Seq<char>)
    ensures
        without_leading(text).is_suffix_of(text),
        without_leading(text).len() > 0 ==> !is_white_space(without_leading(text)[0]),
    decreases text.len(),
{
    if text.len() > 0 && is_white_space(text[0]) {
        lemma_without_leading(text.drop_first());
    }
}

/// What is trimmed of its trailing white space is a beginning of the text, and ends with
/// none.
proof fn lemma_without_trailing(text: Seq<char>)
    ensures
        without_trailing(text).is_prefix_of(text),
        without_trailing(text).len() > 0 ==> !is_white_space(without_trailing(text).last()),
    decreases text.len(),
{
    if text.len() > 0 && is_white_space(text.last()) {
        lemma_without_trailing(text.drop_last());
    }
}

/// A trimmed text has white space at neither end, and no character that the text had not.
pub proof fn law_trimmed(text: Seq<char>)
    ensures
        trimmed(text).len() > 0 ==> !is_white_space(trimmed(text)[0]) && !is_white_space(
            trimmed(text).last(),
        ),
        forall|c: char| #[trigger] trimmed(text).contains(c) ==> text.contains(c),
{
    let start = without_leading(text);
    lemma_without_leading(text);
    lemma_without_trailing(start);
    let result = trimmed(text);
    assert forall|c: char| #[trigger] result.contains(c) implies text.contains(c) by {
        let i = choose|i: int| 0 <= i < result.len() && result[i] == c;
        assert(start[i] == c);
        assert(text[text.len() - start.len() + i] == c);
    }
}

/// Removes the white space around `text`.
pub fn trim(text: &str) -> (result: String)
    ensures
        result@ == trimmed(text@),
{
    let chars = chars_of(text);
    let mut from: usize = 0;
    assert(chars@.skip(0) == chars@);
    while from < chars.len() && white_space(chars[from])
        invariant
            from <= chars@.len(),
            without_leading(chars@) == without_leading(chars@.skip(from as int)),
        decreases chars@.len() - from,
    {
        assert(chars@.skip(from as int).drop_first() == chars@.skip(from + 1));
        from = from + 1;
    }
    let mut to: usize = chars.len();
    assert(chars@.skip(from as int) == chars@.subrange(from as int, to as int));
    assert(without_leading(chars@) == chars@.subrange(from as int, to as int));
    while from < to && white_space(chars[to - 1])
        invariant
            from <= to <= chars@.len(),
            trimmed(chars@) == without_trailing(chars@.subrange(from as int, to as int)),
        decreases to,
    {
        assert(chars@.subrange(from as int, to as int).drop_last() == chars@.subrange(
            from as int,
            to - 1,
        ));
        to = to - 1;
    }
    string_of(&chars, from, to)
}

/// How many bytes stand before the first NUL byte.
pub open spec fn nul_position(bytes: Seq<u8>) -> nat
    decreases bytes.len(),
{
    if bytes.len() == 0 || bytes[0] == 0 {
        0
    } else {
        1 + nul_position(bytes.drop_first())
    }
}

/// The text of a fixed-size field: what stands before the first NUL byte, without
/// the white space around it.
pub open spec fn field_text(bytes: Seq<u8>) -> Seq<char> {
    trimmed(utf8_lossy(bytes.take(nul_position(bytes) as int)))
}

/// The bytes before the first NUL byte hold none, and behind them one follows or the field
/// ends.
pub proof fn law_nul_position(bytes: Seq<u8>)
    ensures
        nul_position(bytes) <= bytes.len(),
        !bytes.take(nul_position(bytes) as int).contains(0),
        nul_position(bytes) < bytes.len() ==> bytes[nul_position(bytes) as int] == 0,
    decreases bytes.len(),
{
    if bytes.len() > 0 && bytes[0] != 0 {
        let rest = bytes.drop_first();
        let n = nul_position(rest) as int;
        law_nul_position(rest);
        assert forall|i: int| 0 <= i < n + 1 implies bytes[i] != 0 by {
            if i > 0 {
                assert(rest.take(n)[i - 1] == bytes[i]);
                assert(rest.take(n).contains(rest.take(n)[i - 1]));
            }
        }
    }
}

/// No byte behind the first NUL byte has any influence on the text of a field: fields that
/// agree up to that byte, or wholly where there is none, have the same text.
pub proof fn law_bytes_behind_nul_do_not_count(v: Seq<u8>, w: Seq<u8>)
    requires
        v.len() == w.len(),
        forall|i: int| 0 <= i <= nul_position(v) && i < v.len() ==> v[i] == w[i],
    ensures
        nul_position(w) == nul_position(v),
        field_text(w) == field_text(v),
{
    lemma_same_nul_position(v, w);
    law_nul_position(v);
    let n = nul_position(v) as int;
    assert(v.take(n) =~= w.take(n));
}

proof fn lemma_same_nul_position(v: Seq<u8>, w: Seq<u8>)
    requires
        v.len() == w.len(),
        forall|i: int| 0 <= i <= nul_position(v) && i < v.len() ==> v[i] == w[i],
    ensures
        nul_position(w) == nul_position(v),
    decreases v.len(),
{
    if v.len() > 0 && v[0] != 0 {
        lemma_same_nul_position(v.drop_first(), w.drop_first());
    }
}

/// Reads the text of a fixed-size field.
pub fn decode(value: &[u8]) -> (text: String)
    ensures
        text@ == field_text(value@),
        valid_utf8(value@.take(nul_position(value@) as int)) ==> text@ == trimmed(
            decode_utf8(value@.take(nul_position(value@) as int)),
        ),
        !text@.contains('\0'),
        text@.len() > 0 ==> !is_white_space(text@[0]) && !is_white_space(text@.last()),
{
    let mut end: usize = 0;
    assert(value@.skip(0) == value@);
    while end < value.len() && value[end] != 0
        invariant
            end <= value@.len(),
            nul_position(value@) == end + nul_position(value@.skip(end as int)),
        decreases value@.len() - end,
    {
        assert(value@.skip(end as int).drop_first() == value@.skip(end + 1));
        end = end + 1;
    }
    let field = vstd::slice::slice_subrange(value, 0, end);
    assert(field@ == value@.take(end as int));
    let lossy: String = from_utf8_lossy(field);
    proof {
        law_nul_position(value@);
        law_trimmed(lossy@);
    }
    trim(lossy.as_str())
}

/// An ASCII capital letter in lower case, any other character as it is.
pub open spec fn lower_char(c: char) -> char {
    if 'A' <= c <= 'Z' {
        (c as u32 + 32) as char
    } else {
        c
    }
}

/// `text` with its ASCII letters in lower case.
pub open spec fn lowered(text: Seq<char>) -> Seq<char> {
    Seq::new(text.len(), |i: int| lower_char(text[i]))
}

/// `c` in ASCII lower case.
pub fn to_lower(c: char) -> (lower: char)
    ensures
        lower == lower_char(c),
{
    if 'A' <= c && c <= 'Z' {
        (c as u8 + 32) as char
    } else {
        c
    }
}

/// The characters of `text`, in ASCII lower case.
pub fn lower_chars(text: &str) -> (chars: Vec<char>)
    ensures
        chars@ == lowered(text@),
{
    let original = chars_of(text);
    let mut chars: Vec<char> = Vec::new();
    let mut i: usize = 0;
    while i < original.len()
        invariant
            i <= original@.len(),
            original@ == text@,
            chars@ == lowered(text@).take(i as int),
        decreases original@.len() - i,
    {
        chars.push(to_lower(original[i]));
        i = i + 1;
    }
    chars
}

/// Whether two texts differ at most in the case of ASCII letters.
pub open spec fn same_ignoring_case(a: Seq<char>, b: Seq<char>) -> bool {
    lowered(a) == lowered(b)
}

/// Compares two texts without regard to the case of ASCII letters.
pub fn eq_ignore_ascii_case(a: &str, b: &str) -> (same: bool)
    ensures
        same == same_ignoring_case(a@, b@),
{
    let left = lower_chars(a);
    let right = lower_chars(b);
    if left.len() != right.len() {
        return false;
    }
    let mut i: usize = 0;
    while i < left.len()
        invariant
            i <= left@.len(),
            left@ == lowered(a@),
            right@ == lowered(b@),
            left@.len() == right@.len(),
            forall|k: int| 0 <= k < i ==> left@[k] == right@[k],
        decreases left@.len() - i,
    {
        if left[i] != right[i] {
            return false;
        }
        i = i + 1;
    }
    assert(left@ == right@);
    true
}

/// Whether `part` stands at position `at` of `text`.
pub open spec fn stands_at(text: Seq<char>, part: Seq<char>, at: int) -> bool {
    &&& 0 <= at <= text.len() - part.len()
    &&& text.subrange(at, at + part.len()) == part
}

/// Whether `part` stands somewhere in `text`.
pub open spec fn has_part(text: Seq<char>, part: Seq<char>) -> bool {
    exists|at: int| stands_at(text, part, at)
}

/// Looks for `part` in `text`.
pub fn contains(text: &Vec<char>, part: &str) -> (found: bool)
    ensures
        found == has_part(text@, part@),
{
    let wanted = chars_of(part);
    if wanted.len() > text.len() {
        return false;
    }
    let last: usize = text.len() - wanted.len();
    let mut at: usize = 0;
    while at <= last
        invariant
            wanted@ == part@,
            last == text.len() - wanted.len(),
            at <= last + 1,
            forall|k: int| 0 <= k < at ==> !stands_at(text@, wanted@, k),
        decreases last + 1 - at,
    {
        let mut n: usize = 0;
        while n < wanted.len() && text[at + n] == wanted[n]
            invariant
                at <= last == text.len() - wanted.len(),
                n <= wanted@.len(),
                forall|k: int| 0 <= k < n ==> text@[at + k] == wanted@[k],
            decreases wanted@.len() - n,
        {
            n = n + 1;
        }
        if n == wanted.len() {
            assert(text@.subrange(at as int, at + wanted@.len()) == wanted@);
            assert(stands_at(text@, wanted@, at as int));
            return true;
        }
        assert(text@.subrange(at as int, at + wanted@.len())[n as int] == text@[at + n]);
        assert(!stands_at(text@, wanted@, at as int));
        at = at + 1;
    }
    false
}

/// Trimming takes away white space at the two ends and nothing else.
pub proof fn law_trimming_takes_white_space(text: Seq<char>) -> (cut: (Seq<char>, Seq<char>))
    ensures
        text == cut.0 + trimmed(text) + cut.1,
        forall|i: int| 0 <= i < cut.0.len() ==> is_white_space(#[trigger] cut.0[i]),
        forall|i: int| 0 <= i < cut.1.len() ==> is_white_space(#[trigger] cut.1[i]),
{
    let front = lemma_cut_leading(text);
    let rear = lemma_cut_trailing(without_leading(text));
    assert(text =~= front + trimmed(text) + rear);
    (front, rear)
}

proof fn lemma_cut_leading(text: Seq<char>) -> (cut: Seq<char>)
    ensures
        text == cut + without_leading(text),
        forall|i: int| 0 <= i < cut.len() ==> is_white_space(#[trigger] cut[i]),
    decreases text.len(),
{
    if text.len() > 0 && is_white_space(text[0]) {
        let rest = lemma_cut_leading(text.drop_first());
        let cut = seq![text[0]] + rest;
        assert(without_leading(text) == without_leading(text.drop_first()));
        assert(text =~= seq![text[0]] + text.drop_first());
        assert(text =~= cut + without_leading(text));
        cut
    } else {
        assert(text =~= Seq::<char>::empty() + text);
        seq![]
    }
}

proof fn lemma_cut_trailing(text: Seq<char>) -> (cut: Seq<char>)
    ensures
        text == without_trailing(text) + cut,
        forall|i: int| 0 <= i < cut.len() ==> is_white_space(#[trigger] cut[i]),
    decreases text.len(),
{
    if text.len() > 0 && is_white_space(text.last()) {
        let rest = lemma_cut_trailing(text.drop_last());
        let cut = rest.push(text.last());
        assert(without_trailing(text) == without_trailing(text.drop_last()));
        assert(text =~= text.drop_last().push(text.last()));
        assert(text =~= without_trailing(text) + cut);
        cut
    } else {
        assert(text =~= text + Seq::<char>::empty());
        seq![]
    }
}

/// Two characters are the same in lower case exactly if they are the same, or the two forms
/// of a letter.
proof fn lemma_lower_char(x: char, y: char)
    ensures
        lower_char(x) == lower_char(y) <==> {
            ||| x == y
            ||| 'A' <= x <= 'Z' && y as u32 == x as u32 + 32
            ||| 'A' <= y <= 'Z' && x as u32 == y as u32 + 32
        },
{
    if 'A' <= x <= 'Z' {
        assert(lower_char(x) as u32 == x as u32 + 32);
    }
    if 'A' <= y <= 'Z' {
        assert(lower_char(y) as u32 == y as u32 + 32);
    }
}

/// Two texts differ only in the case of ASCII letters exactly if they are of one length and
/// at each place have the same character, or the capital and the small form of a letter,
/// which lie 32 apart.
pub proof fn law_same_ignoring_case(a: Seq<char>, b: Seq<char>)
    ensures
        same_ignoring_case(a, b) <==> a.len() == b.len() && forall|i: int|
            0 <= i < a.len() ==> {
                let (x, y) = (#[trigger] a[i], b[i]);
                ||| x == y
                ||| 'A' <= x <= 'Z' && y as u32 == x as u32 + 32
                ||| 'A' <= y <= 'Z' && x as u32 == y as u32 + 32
            },
{
    let (p, q) = (lowered(a), lowered(b));
    assert(p.len() == a.len() && q.len() == b.len());
    if a.len() == b.len() {
        assert forall|i: int| 0 <= i < a.len() implies (p[i] == q[i] <==> {
            let (x, y) = (#[trigger] a[i], b[i]);
            ||| x == y
            ||| 'A' <= x <= 'Z' && y as u32 == x as u32 + 32
            ||| 'A' <= y <= 'Z' && x as u32 == y as u32 + 32
        }) by {
            lemma_lower_char(a[i], b[i]);
        }
        if same_ignoring_case(a, b) {
            assert forall|i: int| 0 <= i < a.len() implies p[i] == q[i] by {}
        } else if forall|i: int| 0 <= i < a.len() ==> p[i] == q[i] {
            assert(p =~= q);
        } else {
            let i = choose|i: int| 0 <= i < a.len() && p[i] != q[i];
            assert(a[i] == a[i]);
        }
    }
}

/// A part stands in a text exactly if the text is something, the part and something.
pub proof fn law_part_of_text(front: Seq<char>, part: Seq<char>, rear: Seq<char>, text: Seq<char>)
    ensures
        has_part(front + part + rear, part),
        has_part(text, part) ==> exists|at: int|
            0 <= at && at + part.len() <= text.len() && text == #[trigger] text.take(at) + part
                + text.skip(at + part.len()),
{
    let whole = front + part + rear;
    assert(whole.subrange(front.len() as int, (front.len() + part.len()) as int) =~= part);
    assert(stands_at(whole, part, front.len() as int));
    if has_part(text, part) {
        let at = choose|at: int| stands_at(text, part, at);
        assert(text =~= text.take(at) + part + text.skip(at + part.len()));
    }
}

/// The text of a field is that of the bytes before its first NUL byte, or of all where there
/// is none, without the white space around it.
pub proof fn law_field_text(bytes: Seq<u8>, n: int)
    requires
        0 <= n <= bytes.len(),
        forall|i: int| 0 <= i < n ==> bytes[i] != 0,
        n < bytes.len() ==> bytes[n] == 0,
    ensures
        field_text(bytes) == trimmed(utf8_lossy(bytes.subrange(0, n))),
{
    law_nul_position(bytes);
    let found = nul_position(bytes) as int;
    if found > n {
        assert(bytes.take(found)[n] == 0);
        assert(bytes.take(found).contains(0));
    }
    assert(found == n);
    assert(bytes.take(found) =~= bytes.subrange(0, n));
}

} // verus!
