//! What the texts for people tell.

use crate::cli;
use crate::text;
use vstd::prelude::*;

verus! {

// ---------------------------------------------------------------------------
// Numbers
// ---------------------------------------------------------------------------

/// The number that decimal digits stand for.
pub open spec fn value_of(digits: Seq<char>) -> int {
    digits.fold_left(0, |value: int, digit: char| 10 * value + (digit as int - 48))
}

/// A number in decimal is made of digits that stand for it, without leading zeros.
pub proof fn law_decimal_stands_for_the_number(n: int)
    requires
        n >= 0,
    ensures
        text::decimal_text(n).len() > 0,
        value_of(text::decimal_text(n)) == n,
        forall|i: int|
            0 <= i < text::decimal_text(n).len() ==> '0' <= #[trigger] text::decimal_text(n)[i]
                <= '9',
        text::decimal_text(n).len() > 1 <==> n >= 10,
        n >= 10 ==> text::decimal_text(n)[0] != '0',
    decreases n,
{
    let shown = text::decimal_text(n);
    if n >= 10 {
        law_decimal_stands_for_the_number(n / 10);
        assert(shown.drop_last() =~= text::decimal_text(n / 10));
        assert(shown[0] == text::decimal_text(n / 10)[0]);
        if n / 10 < 10 {
            assert(text::decimal_text(n / 10)[0] as int == 48 + n / 10);
        }
    } else {
        let none: Seq<char> = Seq::empty();
        assert(shown.drop_last() =~= none);
        assert(none.fold_left(0, |value: int, digit: char| 10 * value + (digit as int - 48)) == 0);
    }
}

proof fn lemma_three_more_digits(n: int)
    requires
        n >= 1000,
    ensures
        text::decimal_text(n) == text::decimal_text(n / 1000) + seq![
            text::digit_char(n % 1000 / 100),
            text::digit_char(n % 100 / 10),
            text::digit_char(n % 10),
        ],
{
    assert(n / 10 / 10 == n / 100 && n / 10 / 10 / 10 == n / 1000);
    assert(n / 10 % 10 == n % 100 / 10);
    assert(n / 100 % 10 == n % 1000 / 100);
    assert(text::decimal_text(n) == text::decimal_text(n / 10).push(text::digit_char(n % 10)));
    assert(text::decimal_text(n / 10) == text::decimal_text(n / 100).push(
        text::digit_char(n / 10 % 10),
    ));
    assert(text::decimal_text(n / 100) == text::decimal_text(n / 1000).push(
        text::digit_char(n / 100 % 10),
    ));
    assert(text::decimal_text(n) =~= text::decimal_text(n / 1000) + seq![
        text::digit_char(n % 1000 / 100),
        text::digit_char(n % 100 / 10),
        text::digit_char(n % 10),
    ]);
}

proof fn lemma_short_decimal(n: int)
    requires
        0 <= n < 1000,
    ensures
        1 <= text::decimal_text(n).len() <= 3,
{
    reveal_with_fuel(text::decimal_text, 3);
}

/// Without its commas a number with separated thousands is the number in decimal. A comma stands
/// behind every three digits from the right, and none at the start.
pub proof fn law_commas_separate_thousands(n: int)
    requires
        n >= 0,
    ensures
        text::grouped_text(n).filter(|ch: char| ch != ',') == text::decimal_text(n),
        forall|r: int|
            0 <= r < text::grouped_text(n).len() ==> (#[trigger] text::grouped_text(
                n,
            )[text::grouped_text(n).len() - 1 - r] == ',' <==> r % 4 == 3),
        text::grouped_text(n).len() > 0,
        text::grouped_text(n)[0] != ',',
    decreases n,
{
    lemma_without_commas(n);
    lemma_commas(n);
}

proof fn lemma_without_commas(n: int)
    requires
        n >= 0,
    ensures
        text::grouped_text(n).filter(|ch: char| ch != ',') == text::decimal_text(n),
    decreases n,
{
    let shown = text::grouped_text(n);
    let no_comma = |ch: char| ch != ',';
    if n < 1000 {
        law_decimal_stands_for_the_number(n);
        assert forall|i: int| 0 <= i < shown.len() implies no_comma(#[trigger] shown[i]) by {
            assert('0' <= text::decimal_text(n)[i] <= '9');
        }
        lemma_filter_all(shown, no_comma);
    } else {
        let head = text::grouped_text(n / 1000);
        let digits = seq![
            text::digit_char(n % 1000 / 100),
            text::digit_char(n % 100 / 10),
            text::digit_char(n % 10),
        ];
        lemma_without_commas(n / 1000);
        lemma_three_more_digits(n);
        assert(shown =~= head + (seq![','] + digits));
        Seq::filter_distributes_over_add(head, seq![','] + digits, no_comma);
        Seq::filter_distributes_over_add(seq![','], digits, no_comma);
        assert forall|i: int| 0 <= i < digits.len() implies no_comma(#[trigger] digits[i]) by {
            assert(48 <= digits[i] as int <= 57);
        }
        lemma_filter_all(digits, no_comma);
        crate::sort::lemma_filter_none(seq![','], no_comma);
        assert(Seq::<char>::empty() + digits =~= digits);
    }
}

proof fn lemma_commas(n: int)
    requires
        n >= 0,
    ensures
        forall|r: int|
            0 <= r < text::grouped_text(n).len() ==> (#[trigger] text::grouped_text(
                n,
            )[text::grouped_text(n).len() - 1 - r] == ',' <==> r % 4 == 3),
        text::grouped_text(n).len() > 0,
        text::grouped_text(n)[0] != ',',
    decreases n,
{
    let shown = text::grouped_text(n);
    let len = shown.len() as int;
    if n < 1000 {
        law_decimal_stands_for_the_number(n);
        lemma_short_decimal(n);
        assert forall|r: int| 0 <= r < len implies (#[trigger] shown[len - 1 - r] == ',' <==> r % 4
            == 3) by {
            assert('0' <= text::decimal_text(n)[len - 1 - r] <= '9');
        }
    } else {
        let head = text::grouped_text(n / 1000);
        lemma_commas(n / 1000);
        assert forall|r: int| 0 <= r < len implies (#[trigger] shown[len - 1 - r] == ',' <==> r % 4
            == 3) by {
            if r >= 4 {
                assert(shown[len - 1 - r] == head[head.len() - 1 - (r - 4)]);
            } else if r == 0 {
                assert(shown[len - 1] == text::digit_char(n % 10));
            } else if r == 1 {
                assert(shown[len - 2] == text::digit_char(n % 100 / 10));
            } else if r == 2 {
                assert(shown[len - 3] == text::digit_char(n % 1000 / 100));
            }
        }
        assert(shown[0] == head[0]);
    }
}

proof fn lemma_filter_all(s: Seq<char>, pred: spec_fn(char) -> bool)
    requires
        forall|i: int| 0 <= i < s.len() ==> pred(#[trigger] s[i]),
    ensures
        s.filter(pred) == s,
    decreases s.len(),
{
    reveal(Seq::filter);
    if s.len() > 0 {
        lemma_filter_all(s.drop_last(), pred);
        assert(s.drop_last().push(s.last()) =~= s);
    } else {
        assert(s.filter(pred) =~= s);
    }
}

/// A number of tenths is told by its whole part, a point and one digit.
pub proof fn law_tenths_have_one_digit_behind_the_point(tenths: nat)
    ensures
        ({
            let shown = text::point_text(tenths);
            let n = shown.len();
            &&& n >= 3
            &&& shown[n - 2] == '.'
            &&& 10 * value_of(shown.take(n - 2)) + (shown[n - 1] as int - 48) == tenths
        }),
{
    let whole = text::decimal_text(tenths as int / 10);
    law_decimal_stands_for_the_number(tenths as int / 10);
    let shown = text::point_text(tenths);
    assert(shown.take(shown.len() - 2) =~= whole);
}

// ---------------------------------------------------------------------------
// Bars, shares and widths
// ---------------------------------------------------------------------------

/// A bar has thirty cells between brackets, and a cell is filled where its share of the bar has
/// been reached.
pub proof fn law_bars_fill_cell_by_cell(percent: nat, i: int)
    requires
        0 <= i < 30,
    ensures
        text::bar_text(percent).len() == 32,
        text::bar_text(percent)[0] == '[',
        text::bar_text(percent)[31] == ']',
        text::bar_text(percent)[i + 1] == (if (i + 1) * 100 <= percent * 30 {
            '█'
        } else {
            '░'
        }),
{
    reveal_strlit("[");
    reveal_strlit("]");
}

/// A whole percentage is the share rounded down, and a hundred where everything is done.
pub proof fn law_whole_percent_is_the_share_rounded_down(done: nat, total: nat)
    requires
        total > 0,
    ensures
        cli::whole_percent(done, total) <= 100,
        done >= total ==> cli::whole_percent(done, total) == 100,
        done < total ==> cli::whole_percent(done, total) * total <= 100 * done < (
        cli::whole_percent(done, total) + 1) * total,
{
    let p = done * 100 / total;
    vstd::arithmetic::div_mod::lemma_fundamental_div_mod((done * 100) as int, total as int);
    let rest = (done * 100) % total;
    assert(done * 100 == total * p + rest);
    assert(p * total <= 100 * done < (p + 1) * total) by (nonlinear_arith)
        requires
            done * 100 == total * p + rest,
            0 <= rest < total,
    ;
    if done >= total {
        assert(p >= 100) by (nonlinear_arith)
            requires
                100 * done < (p + 1) * total,
                done >= total,
                total > 0,
        ;
    } else {
        assert(p < 100) by (nonlinear_arith)
            requires
                p * total <= 100 * done,
                done < total,
        ;
    }
}

/// Blanks fill up to a width and never cut.
pub proof fn law_blanks_fill_up(len: nat, width: nat, i: int)
    ensures
        len + text::blanks_to(len, width).len() == (if len < width {
            width
        } else {
            len
        }),
        0 <= i < text::blanks_to(len, width).len() ==> text::blanks_to(len, width)[i] == ' ',
{
}

/// A text of at most `max` characters stays; of a longer one the first `max` stay, with an
/// ellipsis behind them.
pub proof fn law_long_texts_are_cut(shown: Seq<char>, max: nat)
    requires
        max > 0,
    ensures
        shown.len() <= max ==> text::truncated_text(shown, max) == shown,
        shown.len() > max ==> {
            &&& text::truncated_text(shown, max).len() == max + 1
            &&& text::truncated_text(shown, max)[max as int] == '…'
            &&& forall|i: int|
                0 <= i < max ==> #[trigger] text::truncated_text(shown, max)[i] == shown[i]
        },
{
    reveal_strlit("…");
}

/// A text ends in another exactly where it is something followed by that.
pub proof fn law_endings(shown: Seq<char>, stem: Seq<char>, ending: Seq<char>)
    ensures
        text::text_ends_with(stem + ending, ending),
        text::text_ends_with(shown, ending) ==> shown == shown.take(shown.len() - ending.len())
            + ending,
{
    assert((stem + ending).skip(stem.len() as int) =~= ending);
    if text::text_ends_with(shown, ending) {
        assert(shown =~= shown.take(shown.len() - ending.len()) + ending);
    }
}

// ---------------------------------------------------------------------------
// Answers
// ---------------------------------------------------------------------------

/// The characters are white space.
pub open spec fn is_blank(shown: Seq<char>) -> bool {
    forall|i: int|
        0 <= i < shown.len() ==> {
            let ch = #[trigger] shown[i];
            ch == ' ' || ch == '\t' || ch == '\n' || ch == '\r' || ch == '\x0b' || ch == '\x0c'
        }
}

/// The word is `y` or `yes`, each letter small or capital.
pub open spec fn is_yes_word(word: Seq<char>) -> bool {
    let y = word.len() > 0 && (word[0] == 'y' || word[0] == 'Y');
    ||| y && word.len() == 1
    ||| y && word.len() == 3 && (word[1] == 'e' || word[1] == 'E') && (word[2] == 's' || word[2]
        == 'S')
}

/// An answer confirms where it is a `y` or a `yes` in any case with nothing but white space
/// around it, and not else.
pub proof fn law_only_yes_confirms(answer: Seq<char>)
    ensures
        text::ascii_confirms(answer) <==> exists|before: Seq<char>, word: Seq<char>, after: Seq<
            char,
        >| #[trigger]
            (before + word + after) == answer && is_blank(before) && is_yes_word(word)
                && is_blank(after),
{
    reveal_strlit("y");
    reveal_strlit("yes");
    let lower = |ch: char| text::ascii_lower(ch);
    if text::ascii_confirms(answer) {
        let part = choose|part: Seq<char>| #[trigger]
            text::is_trimmed(part, answer) && text::is_yes_text(part.map_values(lower));
        let (s, e) = choose|start: int, end: int|
            {
                &&& 0 <= start <= end <= answer.len()
                &&& part == #[trigger] answer.subrange(start, end)
                &&& forall|i: int| 0 <= i < start ==> text::is_ascii_space(#[trigger] answer[i])
                &&& forall|i: int|
                    end <= i < answer.len() ==> text::is_ascii_space(#[trigger] answer[i])
                &&& start < end ==> !text::is_ascii_space(answer[start]) && !text::is_ascii_space(
                    answer[end - 1],
                )
            };
        let before = answer.take(s);
        let after = answer.skip(e);
        assert(before + part + after =~= answer);
        lemma_yes_word(part);
        assert forall|i: int| 0 <= i < after.len() implies text::is_ascii_space(
            #[trigger] after[i],
        ) by {
            assert(after[i] == answer[e + i]);
        }
        assert(is_blank(before) && is_blank(after));
    }
    if exists|before: Seq<char>, word: Seq<char>, after: Seq<char>| #[trigger]
        (before + word + after) == answer && is_blank(before) && is_yes_word(word) && is_blank(
            after,
        ) {
        let (before, word, after) = choose|
            before: Seq<char>,
            word: Seq<char>,
            after: Seq<char>,
        | #[trigger]
            (before + word + after) == answer && is_blank(before) && is_yes_word(word)
                && is_blank(after);
        let s = before.len() as int;
        let e = s + word.len();
        assert(answer.subrange(s, e) =~= word);
        assert forall|i: int| 0 <= i < s implies text::is_ascii_space(#[trigger] answer[i]) by {
            assert(answer[i] == before[i]);
        }
        assert forall|i: int| e <= i < answer.len() implies text::is_ascii_space(
            #[trigger] answer[i],
        ) by {
            assert(answer[i] == after[i - e]);
        }
        assert(answer[s] == word[0] && answer[e - 1] == word[word.len() - 1]);
        assert(text::is_trimmed(word, answer));
        lemma_yes_word(word);
    }
}

proof fn lemma_yes_word(word: Seq<char>)
    ensures
        text::is_yes_text(word.map_values(|ch: char| text::ascii_lower(ch))) <==> is_yes_word(word),
{
    reveal_strlit("y");
    reveal_strlit("yes");
    let low = word.map_values(|ch: char| text::ascii_lower(ch));
    assert forall|i: int| 0 <= i < word.len() implies {
        &&& #[trigger] low[i] == 'y' <==> word[i] == 'y' || word[i] == 'Y'
        &&& low[i] == 'e' <==> word[i] == 'e' || word[i] == 'E'
        &&& low[i] == 's' <==> word[i] == 's' || word[i] == 'S'
    } by {
        assert(low[i] == text::ascii_lower(word[i]));
    }
    if is_yes_word(word) {
        assert(low[0] == 'y');
        if word.len() == 1 {
            assert(low =~= "y"@);
        } else {
            assert(low[1] == 'e' && low[2] == 's');
            assert(low =~= "yes"@);
        }
    }
    if text::is_yes_text(low) {
        assert(low[0] == 'y');
        if low.len() == 3 {
            assert(low[1] == 'e' && low[2] == 's');
        }
    }
}

} // verus!
