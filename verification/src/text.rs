//! Texts for people: numbers, sizes, bars and names.

use crate::order;
use crate::rounding;
use vstd::prelude::*;
use vstd::utf8::*;

verus! {

/// `String::push` appends one character to the string.
pub assume_specification[ String::push ](string: &mut String, ch: char)
    ensures
        final(string)@ == old(string)@.push(ch),
;

/// The character of one decimal digit.
pub open spec fn digit_char(digit: int) -> char {
    (48 + digit) as char
}

/// The decimal digits of a number, most significant first, without leading zeros.
pub open spec fn decimal_text(n: int) -> Seq<char>
    decreases n,
{
    if n < 10 {
        seq![digit_char(n)]
    } else {
        decimal_text(n / 10).push(digit_char(n % 10))
    }
}

fn push_digit(text: &mut String, digit: u64)
    requires
        digit < 10,
    ensures
        final(text)@ == old(text)@.push(digit_char(digit as int)),
{
    let ch: char = (48u8 + digit as u8) as char;
    text.push(ch);
}

/// The number in decimal.
pub fn decimal(n: u64) -> (text: String)
    ensures
        text@ == decimal_text(n as int),
{
    decimal_wide(n as u128)
}

fn decimal_wide(n: u128) -> (text: String)
    ensures
        text@ == decimal_text(n as int),
    decreases n,
{
    if n < 10 {
        let mut text = String::new();
        push_digit(&mut text, n as u64);
        assert(text@ =~= seq![digit_char(n as int)]);
        text
    } else {
        let mut text = decimal_wide(n / 10);
        push_digit(&mut text, (n % 10) as u64);
        text
    }
}

/// The decimal digits of a number in blocks of three, counted from the right and
/// separated by commas.
pub open spec fn grouped_text(n: int) -> Seq<char>
    decreases n,
{
    if n < 1000 {
        decimal_text(n)
    } else {
        grouped_text(n / 1000) + seq![
            ',',
            digit_char(n % 1000 / 100),
            digit_char(n % 100 / 10),
            digit_char(n % 10),
        ]
    }
}

/// The number in decimal with a comma between each two blocks of three digits.
pub fn fmt_n(n: u64) -> (text: String)
    ensures
        text@ == grouped_text(n as int),
    decreases n,
{
    if n < 1000 {
        decimal(n)
    } else {
        let mut text = fmt_n(n / 1000);
        text.push(',');
        push_digit(&mut text, n % 1000 / 100);
        push_digit(&mut text, n % 100 / 10);
        push_digit(&mut text, n % 10);



        text
    }
}

/// The texts of a list.
pub open spec fn string_views(strings: Seq<String>) -> Seq<Seq<char>> {
    strings.map_values(|s: String| s@)
}

/// The text that bytes stand for, with a replacement character for what is not UTF-8.
pub uninterp spec fn lossy_text(bytes: Seq<u8>) -> Seq<char>;

/// `String::from_utf8_lossy`: the text is a function of the bytes alone, and valid UTF-8 is
/// decoded unchanged. Where replacement characters go is not stated.
#[verifier::external_body]
pub(crate) fn from_utf8_lossy(bytes: &[u8]) -> (text: String)
    ensures
        text@ == lossy_text(bytes@),
        valid_utf8(bytes@) ==> text@ == decode_utf8(bytes@),
{
    String::from_utf8_lossy(bytes).into_owned()
}

/// Where the bytes are UTF-8, their text is what they encode.
pub open spec fn reads_exactly(bytes: Seq<u8>) -> bool {
    valid_utf8(bytes) ==> lossy_text(bytes) == decode_utf8(bytes)
}

/// Whether the two texts are the same.
pub(crate) fn same_text(a: &str, b: &str) -> (same: bool)
    ensures
        same == (a@ == b@),
{
    proof {
        encode_utf8_decode_utf8(a@);
        encode_utf8_decode_utf8(b@);
    }
    order::same_bytes(a.as_bytes(), b.as_bytes())
}

/// The text ends in `suffix`.
pub open spec fn text_ends_with(text: Seq<char>, suffix: Seq<char>) -> bool {
    suffix.len() <= text.len() && text.skip(text.len() - suffix.len()) == suffix
}

pub(crate) fn ends_with(text: &str, suffix: &str) -> (yes: bool)
    ensures
        yes == text_ends_with(text@, suffix@),
{
    let text_len: usize = text.unicode_len();
    let suffix_len: usize = suffix.unicode_len();
    if suffix_len > text_len {
        return false;
    }
    let tail = text.substring_char(text_len - suffix_len, text_len);
    assert(tail@ =~= text@.skip(text@.len() - suffix@.len()));
    same_text(tail, suffix)
}

// ---------------------------------------------------------------------------
// Padding, cutting and bars
// ---------------------------------------------------------------------------

/// The same character so many times.
pub open spec fn repeated(ch: char, count: nat) -> Seq<char> {
    Seq::new(count, |i: int| ch)
}

/// Adds the same character so many times.
pub(crate) fn push_repeated(out: &mut String, ch: char, count: usize)
    ensures
        final(out)@ == old(out)@ + repeated(ch, count as nat),
{
    let ghost before = out@;
    let mut done: usize = 0;
    assert(before + repeated(ch, 0) =~= before);
    while done < count
        invariant
            done <= count,
            out@ == before + repeated(ch, done as nat),
        decreases count - done,
    {
        out.push(ch);
        done += 1;
        assert(before + repeated(ch, done as nat) =~= (before + repeated(
            ch,
            (done - 1) as nat,
        )).push(ch));
    }
}

/// The blanks that are missing to a width.
pub open spec fn blanks_to(len: nat, width: nat) -> Seq<char> {
    if len < width {
        repeated(' ', (width - len) as nat)
    } else {
        Seq::empty()
    }
}

/// The text with blanks after it up to a width.
pub fn padded_right(shown: &str, width: usize) -> (out: String)
    ensures
        out@ == shown@ + blanks_to(shown@.len(), width as nat),
{
    let len: usize = shown.unicode_len();
    let mut out = shown.to_string();
    if len < width {
        push_repeated(&mut out, ' ', width - len);
    } else {
        assert(shown@ + Seq::<char>::empty() =~= shown@);
    }
    out
}

/// The text with blanks before it up to a width.
pub fn padded_left(shown: &str, width: usize) -> (out: String)
    ensures
        out@ == blanks_to(shown@.len(), width as nat) + shown@,
{
    let len: usize = shown.unicode_len();
    let mut out = String::new();
    if len < width {
        push_repeated(&mut out, ' ', width - len);
        assert(Seq::<char>::empty() + repeated(' ', (width - len) as nat) =~= repeated(
            ' ',
            (width - len) as nat,
        ));
    }
    out.append(shown);
    out
}

/// The text itself where it has at most `max` characters, else its first `max` and an ellipsis.
/// The first character always stays.
pub open spec fn truncated_text(shown: Seq<char>, max: nat) -> Seq<char> {
    let kept = if max == 0 {
        1
    } else {
        max
    };
    if shown.len() <= kept {
        shown
    } else {
        shown.take(kept as int) + "…"@
    }
}

/// Cuts a text after `max` characters.
pub fn truncate(shown: &str, max: usize) -> (out: String)
    ensures
        out@ == truncated_text(shown@, max as nat),
{
    let kept: usize = if max == 0 {
        1
    } else {
        max
    };
    if shown.unicode_len() <= kept {
        shown.to_string()
    } else {
        let start = shown.substring_char(0, kept);
        assert(start@ =~= shown@.take(kept as int));
        let mut out = start.to_string();
        out.append("…");
        out
    }
}

/// The number of cells of a progress bar.
pub const BAR: usize = 30;

/// How many cells of a bar are filled.
pub open spec fn filled_cells(percent: nat) -> nat {
    if percent * BAR as nat / 100 > BAR {
        BAR as nat
    } else {
        percent * BAR as nat / 100
    }
}

/// A bar whose first cells are filled.
pub open spec fn bar_text(percent: nat) -> Seq<char> {
    "["@ + repeated('█', filled_cells(percent)) + repeated(
        '░',
        (BAR - filled_cells(percent)) as nat,
    ) + "]"@
}

/// A progress bar.
pub fn progress_bar(pct: u64) -> (out: String)
    requires
        pct * BAR <= usize::MAX,
    ensures
        out@ == bar_text(pct as nat),
{
    let cells: usize = pct as usize * BAR / 100;
    let filled: usize = if cells > BAR {
        BAR
    } else {
        cells
    };
    let mut out = "[".to_string();
    push_repeated(&mut out, '█', filled);
    push_repeated(&mut out, '░', BAR - filled);
    out.append("]");
    out
}

// ---------------------------------------------------------------------------
// Counts
// ---------------------------------------------------------------------------

/// A number of tenths with its point.
pub open spec fn point_text(tenths: nat) -> Seq<char> {
    decimal_text(tenths as int / 10) + seq!['.', digit_char(tenths as int % 10)]
}

/// A count: in millions or thousands, as a floating-point number rounded to tenths, or as it is.
pub open spec fn count_text(n: u64) -> Seq<char> {
    if n >= 1_000_000 {
        point_text(rounding::double_quotient(n as nat, 1_000_000).tenths()) + "M"@
    } else if n >= 1_000 {
        point_text(rounding::double_quotient(n as nat, 1_000).tenths()) + "K"@
    } else {
        decimal_text(n as int)
    }
}

fn with_point(tenths: u128) -> (out: String)
    ensures
        out@ == point_text(tenths as nat),
{
    let mut out = decimal_wide(tenths / 10);
    out.push('.');
    push_digit(&mut out, (tenths % 10) as u64);
    assert(out@ =~= point_text(tenths as nat));
    out
}

/// A count in few characters.
pub fn fmt_count(n: u64) -> (out: String)
    ensures
        out@ == count_text(n),
{
    if n >= 1_000_000 {
        let mut out = with_point(rounding::quotient_in_tenths(n, 1_000_000));
        out.append("M");
        out
    } else if n >= 1_000 {
        let mut out = with_point(rounding::quotient_in_tenths(n, 1_000));
        out.append("K");
        out
    } else {
        decimal(n)
    }
}

// ---------------------------------------------------------------------------
// Sizes
// ---------------------------------------------------------------------------

/// A thousand to the power of `n`.
pub open spec fn thousand_to(n: nat) -> nat
    decreases n,
{
    if n == 0 {
        1
    } else {
        1000 * thousand_to((n - 1) as nat)
    }
}

/// 1024 to the power of `n`.
pub open spec fn kibi_to(n: nat) -> nat
    decreases n,
{
    if n == 0 {
        1
    } else {
        1024 * kibi_to((n - 1) as nat)
    }
}

/// The letters of the units from a thousand bytes up.
pub open spec fn unit_letters() -> Seq<char> {
    seq!['K', 'M', 'G', 'T', 'P', 'E']
}

/// The text for so many tenths of a unit.
pub open spec fn tenths_text(tenths: nat, unit: nat) -> Seq<char> {
    point_text(tenths) + seq![' ', unit_letters()[unit - 1], 'B']
}

/// So many bytes are told in this unit: from about the power of 1024 that goes with the unit up
/// to about the next one.
pub open spec fn takes_unit(bytes: u64, unit: nat) -> bool {
    &&& 1 <= unit <= 6
    &&& unit > 1 ==> 1000 * bytes >= 999 * kibi_to(unit)
    &&& unit < 6 ==> 1000 * bytes <= 1001 * kibi_to(unit + 1)
}

/// So many tenths of a unit are a number of bytes, rounded.
pub open spec fn rounds_to(bytes: u64, tenths: nat, unit: nat) -> bool {
    &&& takes_unit(bytes, unit)
    &&& 1000 * (10 * bytes - tenths * thousand_to(unit)) <= 501 * thousand_to(unit)
    &&& 1000 * (tenths * thousand_to(unit) - 10 * bytes) <= 501 * thousand_to(unit)
}

/// The text tells a number of bytes: fewer than a thousand exactly, more in tenths of a unit.
pub open spec fn tells_bytes(shown: Seq<char>, bytes: u64) -> bool {
    if bytes < 1000 {
        shown == decimal_text(bytes as int) + " B"@
    } else {
        exists|tenths: nat, unit: nat| #[trigger]
            rounds_to(bytes, tenths, unit) && shown == tenths_text(tenths, unit)
    }
}

/// `bytesize::ByteSize`, shown by its `Display`: fewer than a thousand bytes are told exactly,
/// more by a decimal number with one digit after the point and a unit, which is a power of a
/// thousand; up to the rounding, the number is that of the bytes in the unit. One unit gives way
/// to the next at a power of 1024. That is decided by a logarithm in floating point, whose
/// precision is left open, so within a thousandth of such a power either unit is allowed for.
#[verifier::external_body]
pub(crate) fn byte_size(bytes: u64) -> (shown: String)
    ensures
        tells_bytes(shown@, bytes),
{
    bytesize::ByteSize(bytes).to_string()
}

// ---------------------------------------------------------------------------
// Answers
// ---------------------------------------------------------------------------

/// What is left of a text without the white space around it.
pub uninterp spec fn trimmed_text(shown: Seq<char>) -> Seq<char>;

/// A text in lower case.
pub uninterp spec fn lowercase_text(shown: Seq<char>) -> Seq<char>;

/// White space among the ASCII characters.
pub open spec fn is_ascii_space(ch: char) -> bool {
    9 <= ch as int <= 13 || ch == ' '
}

/// An ASCII character in lower case.
pub open spec fn ascii_lower(ch: char) -> char {
    if 'A' <= ch <= 'Z' {
        (ch as int + 32) as char
    } else {
        ch
    }
}

/// `part` is what is left of `whole` without the ASCII white space around it.
pub open spec fn is_trimmed(part: Seq<char>, whole: Seq<char>) -> bool {
    exists|start: int, end: int|
        {
            &&& 0 <= start <= end <= whole.len()
            &&& part == #[trigger] whole.subrange(start, end)
            &&& forall|i: int| 0 <= i < start ==> is_ascii_space(#[trigger] whole[i])
            &&& forall|i: int| end <= i < whole.len() ==> is_ascii_space(#[trigger] whole[i])
            &&& start < end ==> !is_ascii_space(whole[start]) && !is_ascii_space(whole[end - 1])
        }
}

/// `str::trim`: the text without the white space at its start and end, a function of the text
/// alone. For ASCII text it is stated what that is; of other text nothing more is stated.
#[verifier::external_body]
fn trim(shown: &str) -> (part: String)
    ensures
        part@ == trimmed_text(shown@),
        is_ascii_chars(shown@) ==> is_trimmed(part@, shown@),
{
    shown.trim().to_string()
}

/// `str::to_lowercase`: the text in lower case, a function of the text alone. For ASCII text it
/// is stated what that is; of other text nothing more is stated.
#[verifier::external_body]
fn to_lowercase(shown: &str) -> (lower: String)
    ensures
        lower@ == lowercase_text(shown@),
        is_ascii_chars(shown@) ==> lower@ == shown@.map_values(|ch: char| ascii_lower(ch)),
{
    shown.to_lowercase()
}

/// The answers that confirm.
pub open spec fn is_yes_text(answer: Seq<char>) -> bool {
    answer == "y"@ || answer == "yes"@
}

/// Whether an answer, trimmed and in lower case, confirms.
pub fn is_yes(answer: &str) -> (yes: bool)
    ensures
        yes == is_yes_text(answer@),
{
    same_text(answer, "y") || same_text(answer, "yes")
}

/// An ASCII answer confirms: without the white space around it, it is a `y` or a `yes` in any
/// case.
pub open spec fn ascii_confirms(answer: Seq<char>) -> bool {
    exists|part: Seq<char>| #[trigger]
        is_trimmed(part, answer) && is_yes_text(part.map_values(|ch: char| ascii_lower(ch)))
}

proof fn lemma_trimmed_unique(a: Seq<char>, b: Seq<char>, whole: Seq<char>)
    requires
        is_trimmed(a, whole),
        is_trimmed(b, whole),
    ensures
        a == b,
{
    let (s, e) = choose|start: int, end: int|
        {
            &&& 0 <= start <= end <= whole.len()
            &&& a == #[trigger] whole.subrange(start, end)
            &&& forall|i: int| 0 <= i < start ==> is_ascii_space(#[trigger] whole[i])
            &&& forall|i: int| end <= i < whole.len() ==> is_ascii_space(#[trigger] whole[i])
            &&& start < end ==> !is_ascii_space(whole[start]) && !is_ascii_space(whole[end - 1])
        };
    let (t, f) = choose|start: int, end: int|
        {
            &&& 0 <= start <= end <= whole.len()
            &&& b == #[trigger] whole.subrange(start, end)
            &&& forall|i: int| 0 <= i < start ==> is_ascii_space(#[trigger] whole[i])
            &&& forall|i: int| end <= i < whole.len() ==> is_ascii_space(#[trigger] whole[i])
            &&& start < end ==> !is_ascii_space(whole[start]) && !is_ascii_space(whole[end - 1])
        };
    if s < e {
        assert(t <= s < f);
        assert(t <= e - 1 < f);
        assert(s <= t && f <= e);
    } else if t < f {
        assert(s <= t < e);
    } else {
        assert(a =~= b);
    }
}

/// Whether an answer as it was typed confirms.
pub fn confirms(answer: &str) -> (yes: bool)
    ensures
        yes == is_yes_text(lowercase_text(trimmed_text(answer@))),
        is_ascii_chars(answer@) ==> yes == ascii_confirms(answer@),
{
    let part = trim(answer);
    let lower = to_lowercase(part.as_str());
    proof {
        if is_ascii_chars(answer@) {
            assert forall|i: int| 0 <= i < part@.len() implies '\0' <= #[trigger] part@[i]
                <= '\u{7f}' by {
                let (s, e) = choose|start: int, end: int|
                    0 <= start <= end <= answer@.len() && part@ == #[trigger] answer@.subrange(
                        start,
                        end,
                    );
                assert(part@[i] == answer@[s + i]);
            }
            if ascii_confirms(answer@) {
                let other = choose|other: Seq<char>| #[trigger]
                    is_trimmed(other, answer@) && is_yes_text(
                        other.map_values(|ch: char| ascii_lower(ch)),
                    );
                lemma_trimmed_unique(other, part@, answer@);
            }
        }
    }
    is_yes(lower.as_str())
}

} // verus!
