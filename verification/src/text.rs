//! Strings as sequences of characters.

use vstd::prelude::*;
use vstd::string::*;

verus! {

/// The decimal digit of `d`.
pub open spec fn digit(d: int) -> char {
    (48 + d) as char
}

/// The decimal digits of `n`, without leading zeros.
pub open spec fn decimal_nat(n: nat) -> Seq<char>
    decreases n,
{
    if n < 10 {
        seq![digit(n as int)]
    } else {
        decimal_nat(n / 10).push(digit((n % 10) as int))
    }
}

/// The decimal form of `i`, with a minus sign where it is negative.
pub open spec fn decimal(i: int) -> Seq<char> {
    if i < 0 {
        seq!['-'] + decimal_nat((-i) as nat)
    } else {
        decimal_nat(i as nat)
    }
}

/// Whether `c` has the Unicode property White_Space.
pub open spec fn white_space(c: char) -> bool {
    ||| '\u{9}' <= c <= '\u{d}'
    ||| c == '\u{20}'
    ||| c == '\u{85}'
    ||| c == '\u{a0}'
    ||| c == '\u{1680}'
    ||| '\u{2000}' <= c <= '\u{200a}'
    ||| c == '\u{2028}'
    ||| c == '\u{2029}'
    ||| c == '\u{202f}'
    ||| c == '\u{205f}'
    ||| c == '\u{3000}'
}

/// How many characters stand before the first white space.
pub open spec fn word_length(s: Seq<char>) -> nat
    decreases s.len(),
{
    if s.len() == 0 || white_space(s[0]) {
        0
    } else {
        1 + word_length(s.skip(1))
    }
}

/// The words of `s`: the longest runs of characters that are no white space, in order.
pub open spec fn words(s: Seq<char>) -> Seq<Seq<char>>
    decreases s.len(),
{
    if s.len() == 0 {
        Seq::empty()
    } else if white_space(s[0]) {
        words(s.skip(1))
    } else {
        let n = word_length(s) as int;
        if 0 < n <= s.len() {
            seq![s.take(n)] + words(s.skip(n))
        } else {
            Seq::empty()
        }
    }
}

/// The pieces of `s` between commas, in order. There is one more than there are commas.
pub open spec fn fields(s: Seq<char>) -> Seq<Seq<char>>
    decreases s.len(),
{
    if s.len() == 0 {
        seq![s]
    } else if s.last() == ',' {
        fields(s.drop_last()).push(Seq::empty())
    } else {
        let before = fields(s.drop_last());
        before.update(before.len() - 1, before.last().push(s.last()))
    }
}

/// The contents of a list of strings.
pub open spec fn texts(list: Seq<String>) -> Seq<Seq<char>> {
    list.map_values(|s: String| s@)
}

/// The characters of `s`, in order.
pub(crate) fn chars_of(s: &str) -> (chars: Vec<char>)
    ensures
        chars@ == s@,
{
    let mut chars: Vec<char> = Vec::new();
    for c in it: s.chars()
        invariant
            it.seq() == s@,
            chars@ == s@.take(it.index() as int),
    {
        chars.push(c);
    }
    chars
}

/// The string that holds one decimal digit.
fn digit_str(d: u64) -> (s: &'static str)
    requires
        d < 10,
    ensures
        s@ == seq![digit(d as int)],
{
    proof {
        reveal_strlit("0");
        reveal_strlit("1");
        reveal_strlit("2");
        reveal_strlit("3");
        reveal_strlit("4");
        reveal_strlit("5");
        reveal_strlit("6");
        reveal_strlit("7");
        reveal_strlit("8");
        reveal_strlit("9");
    }
    match d {
        0 => "0",
        1 => "1",
        2 => "2",
        3 => "3",
        4 => "4",
        5 => "5",
        6 => "6",
        7 => "7",
        8 => "8",
        _ => "9",
    }
}

/// Appends the decimal digits of `n`.
pub(crate) fn append_u64(out: &mut String, n: u64)
    ensures
        final(out)@ == old(out)@ + decimal_nat(n as nat),
    decreases n,
{
    if n >= 10 {
        append_u64(out, n / 10);
    }
    out.append(digit_str(n % 10));
}

/// Appends the decimal form of `i`.
pub(crate) fn append_i32(out: &mut String, i: i32)
    ensures
        final(out)@ == old(out)@ + decimal(i as int),
{
    let wide = i as i64;
    if wide < 0 {
        proof {
            reveal_strlit("-");
        }
        out.append("-");
        append_u64(out, (-wide) as u64);
        assert("-"@ =~= seq!['-']);
    } else {
        append_u64(out, wide as u64);
    }
}

/// Whether `c` has the Unicode property White_Space.
pub fn is_white_space(c: char) -> (yes: bool)
    ensures
        yes == white_space(c),
{
    ('\u{9}' <= c && c <= '\u{d}') || c == '\u{20}' || c == '\u{85}' || c == '\u{a0}' || c
        == '\u{1680}' || ('\u{2000}' <= c && c <= '\u{200a}') || c == '\u{2028}' || c == '\u{2029}' || c
        == '\u{202f}' || c == '\u{205f}' || c == '\u{3000}'
}

/// A word ends where its run of characters does.
proof fn lemma_word_length(s: Seq<char>, n: int)
    requires
        0 <= n <= s.len(),
        forall|i: int| 0 <= i < n ==> !white_space(#[trigger] s[i]),
        n < s.len() ==> white_space(s[n]),
    ensures
        word_length(s) == n,
    decreases n,
{
    if n > 0 {
        assert(!white_space(s[0]));
        let rest = s.skip(1);
        assert forall|i: int| 0 <= i < n - 1 implies !white_space(#[trigger] rest[i]) by {
            assert(!white_space(s[i + 1]));
        }
        lemma_word_length(rest, n - 1);
    }
}

/// The words of `s`.
pub fn split_words(s: &str) -> (list: Vec<String>)
    ensures
        texts(list@) == words(s@),
{
    let chars = chars_of(s);
    let n = chars.len();
    let mut list: Vec<String> = Vec::new();
    let mut start: usize = 0;
    assert(texts(list@) + words(s@.skip(0)) =~= words(s@)) by {
        assert(s@.skip(0) =~= s@);
    }
    while start < n
        invariant
            chars@ == s@,
            n == chars.len(),
            start <= n,
            texts(list@) + words(s@.skip(start as int)) == words(s@),
        decreases n - start,
    {
        let ghost rest = s@.skip(start as int);
        assert(rest[0] == s@[start as int]);
        if is_white_space(chars[start]) {
            assert(rest.skip(1) =~= s@.skip(start + 1));
            start += 1;
        } else {
            let mut end: usize = start + 1;
            while end < n && !is_white_space(chars[end])
                invariant
                    chars@ == s@,
                    n == chars.len(),
                    start < end <= n,
                    forall|i: int| start <= i < end ==> !white_space(#[trigger] s@[i]),
                decreases n - end,
            {
                end += 1;
            }
            let ghost before = list@;
            list.push(s.substring_char(start, end).to_owned());
            proof {
                assert forall|i: int| 0 <= i < end - start implies !white_space(
                    #[trigger] rest[i],
                ) by {
                    assert(!white_space(s@[start + i]));
                }
                lemma_word_length(rest, end - start);
                assert(rest.take(end - start) =~= s@.subrange(start as int, end as int));
                assert(rest.skip(end - start) =~= s@.skip(end as int));
                assert(texts(list@) =~= texts(before).push(s@.subrange(start as int, end as int)));
                assert(texts(list@) + words(s@.skip(end as int)) =~= texts(before) + (seq![
                    rest.take(end - start),
                ] + words(rest.skip(end - start))));
            }
            start = end;
        }
    }
    assert(texts(list@) + words(s@.skip(start as int)) =~= texts(list@));
    list
}

/// The pieces of `s` between commas.
pub fn split_fields(s: &str) -> (list: Vec<String>)
    ensures
        texts(list@) == fields(s@),
{
    let chars = chars_of(s);
    let n = chars.len();
    let mut list: Vec<String> = Vec::new();
    let mut start: usize = 0;
    let mut end: usize = 0;
    assert(s@.take(0) =~= Seq::empty());
    while end < n
        invariant
            chars@ == s@,
            n == chars.len(),
            start <= end <= n,
            fields(s@.take(end as int)) == texts(list@).push(s@.subrange(start as int, end as int)),
        decreases n - end,
    {
        let ghost upto = s@.take(end + 1);
        let ghost before = texts(list@);
        let ghost piece = s@.subrange(start as int, end as int);
        assert(upto.drop_last() =~= s@.take(end as int));
        assert(upto.last() == s@[end as int]);
        if chars[end] == ',' {
            list.push(s.substring_char(start, end).to_owned());
            assert(texts(list@) =~= before.push(piece));
            start = end + 1;
            assert(s@.subrange(start as int, end + 1) =~= Seq::empty());
        } else {
            assert(s@.subrange(start as int, end + 1) =~= piece.push(s@[end as int]));
            assert(before.push(piece).update(before.len() as int, piece.push(s@[end as int]))
                =~= before.push(s@.subrange(start as int, end + 1)));
        }
        end += 1;
    }
    let ghost before = list@;
    list.push(s.substring_char(start, n).to_owned());
    assert(texts(list@) =~= texts(before).push(s@.subrange(start as int, n as int)));
    assert(s@.take(n as int) =~= s@);
    list
}

/// Whether `w` has at least one character, and none that is white space.
pub open spec fn is_word(w: Seq<char>) -> bool {
    w.len() > 0 && forall|i: int| 0 <= i < w.len() ==> !white_space(#[trigger] w[i])
}

/// Every word has at least one character, and none that is white space.
pub proof fn law_words_are_runs(s: Seq<char>, k: int)
    requires
        0 <= k < words(s).len(),
    ensures
        is_word(words(s)[k]),
    decreases s.len(),
{
    if white_space(s[0]) {
        law_words_are_runs(s.skip(1), k);
    } else {
        let n = word_length(s) as int;
        lemma_word_is_run(s);
        if k > 0 {
            law_words_are_runs(s.skip(n), k - 1);
        } else {
            assert forall|i: int| 0 <= i < n implies !white_space(#[trigger] s.take(n)[i]) by {
                assert(!white_space(s[i]));
            }
        }
    }
}

proof fn lemma_word_is_run(s: Seq<char>)
    ensures
        word_length(s) <= s.len(),
        forall|i: int| 0 <= i < word_length(s) ==> !white_space(#[trigger] s[i]),
        word_length(s) < s.len() ==> white_space(s[word_length(s) as int]),
    decreases s.len(),
{
    if s.len() > 0 && !white_space(s[0]) {
        lemma_word_is_run(s.skip(1));
        assert forall|i: int| 0 <= i < word_length(s) implies !white_space(#[trigger] s[i]) by {
            if i > 0 {
                assert(!white_space(s.skip(1)[i - 1]));
            }
        }
    }
}

/// All words in one.
pub open spec fn run_together(list: Seq<Seq<char>>) -> Seq<char>
    decreases list.len(),
{
    if list.len() == 0 {
        Seq::empty()
    } else {
        list[0] + run_together(list.skip(1))
    }
}

/// The characters of `s` that are no white space, in order.
pub open spec fn without_space(s: Seq<char>) -> Seq<char>
    decreases s.len(),
{
    if s.len() == 0 {
        Seq::empty()
    } else if white_space(s[0]) {
        without_space(s.skip(1))
    } else {
        seq![s[0]] + without_space(s.skip(1))
    }
}

/// Nothing but white space is lost between the words.
pub proof fn law_words_lose_only_space(s: Seq<char>)
    ensures
        run_together(words(s)) == without_space(s),
    decreases s.len(),
{
    if s.len() > 0 {
        if white_space(s[0]) {
            law_words_lose_only_space(s.skip(1));
        } else {
            let n = word_length(s) as int;
            lemma_word_is_run(s);
            law_words_lose_only_space(s.skip(n));
            assert(words(s).skip(1) =~= words(s.skip(n)));
            lemma_word_is_kept(s, n);
        }
    }
}

proof fn lemma_word_is_kept(s: Seq<char>, n: int)
    requires
        0 <= n <= s.len(),
        forall|i: int| 0 <= i < n ==> !white_space(#[trigger] s[i]),
    ensures
        without_space(s) == s.take(n) + without_space(s.skip(n)),
    decreases n,
{
    if n == 0 {
        assert(s.skip(0) =~= s);
        assert(s.take(0) + without_space(s) =~= without_space(s));
    } else {
        assert(!white_space(s[0]));
        let rest = s.skip(1);
        assert forall|i: int| 0 <= i < n - 1 implies !white_space(#[trigger] rest[i]) by {
            assert(!white_space(s[i + 1]));
        }
        lemma_word_is_kept(rest, n - 1);
        assert(rest.skip(n - 1) =~= s.skip(n));
        assert(seq![s[0]] + rest.take(n - 1) =~= s.take(n));
        assert(seq![s[0]] + (rest.take(n - 1) + without_space(s.skip(n))) =~= s.take(n)
            + without_space(s.skip(n)));
    }
}

/// Whether all characters of `s` are white space.
pub open spec fn is_space(s: Seq<char>) -> bool {
    forall|i: int| 0 <= i < s.len() ==> white_space(#[trigger] s[i])
}

proof fn lemma_leading_space(space: Seq<char>, s: Seq<char>)
    requires
        is_space(space),
    ensures
        words(space + s) == words(s),
    decreases space.len(),
{
    if space.len() == 0 {
        assert(space + s =~= s);
    } else {
        let rest = space.skip(1);
        assert(white_space(space[0]));
        assert forall|i: int| 0 <= i < rest.len() implies white_space(#[trigger] rest[i]) by {
            assert(white_space(space[i + 1]));
        }
        lemma_leading_space(rest, s);
        assert((space + s).skip(1) =~= rest + s);
    }
}

/// White space separates words: what stands before it and what stands behind it have their words
/// each for itself, however much white space there is.
pub proof fn law_space_separates_words(a: Seq<char>, space: Seq<char>, b: Seq<char>)
    requires
        is_space(space),
        space.len() > 0,
    ensures
        words(a + space + b) == words(a) + words(b),
    decreases a.len(),
{
    let s = a + space + b;
    if a.len() == 0 {
        assert(s =~= space + b);
        lemma_leading_space(space, b);
        assert(words(a) + words(b) =~= words(b));
    } else if white_space(a[0]) {
        law_space_separates_words(a.skip(1), space, b);
        assert(s.skip(1) =~= a.skip(1) + space + b);
    } else {
        let n = word_length(a) as int;
        lemma_word_is_run(a);
        assert(white_space(s[n])) by {
            assert(white_space(space[0]));
        }
        assert forall|i: int| 0 <= i < n implies !white_space(#[trigger] s[i]) by {
            assert(!white_space(a[i]));
        }
        lemma_word_length(s, n);
        assert(s.take(n) =~= a.take(n));
        assert(s.skip(n) =~= a.skip(n) + space + b);
        law_space_separates_words(a.skip(n), space, b);
        assert(words(s) =~= words(a) + words(b));
    }
}

/// White space before the first word and behind the last one changes nothing.
pub proof fn law_outer_space_is_ignored(before: Seq<char>, s: Seq<char>, after: Seq<char>)
    requires
        is_space(before),
        is_space(after),
    ensures
        words(before + s + after) == words(s),
{
    let none = Seq::<char>::empty();
    lemma_leading_space(before, s);
    if after.len() > 0 {
        law_space_separates_words(before + s, after, none);
        assert(before + s + after + none =~= before + s + after);
        assert(words(s) + words(none) =~= words(s));
    } else {
        assert(before + s + after =~= before + s);
    }
}

/// The pieces put together again, with a comma between each two.
pub open spec fn joined(pieces: Seq<Seq<char>>) -> Seq<char>
    decreases pieces.len(),
{
    if pieces.len() == 0 {
        Seq::empty()
    } else if pieces.len() == 1 {
        pieces[0]
    } else {
        joined(pieces.drop_last()) + seq![','] + pieces.last()
    }
}

/// Nothing is lost between the commas: the pieces, joined by commas, are the string again.
pub proof fn law_fields_join(s: Seq<char>)
    ensures
        fields(s).len() > 0,
        joined(fields(s)) == s,
    decreases s.len(),
{
    if s.len() > 0 {
        let before = fields(s.drop_last());
        law_fields_join(s.drop_last());
        if s.last() == ',' {
            assert(fields(s).drop_last() =~= before);
            assert(joined(fields(s)) =~= s);
        } else {
            let piece = before.last().push(s.last());
            assert(fields(s).drop_last() =~= before.drop_last());
            assert(fields(s).last() == piece);
            if before.len() == 1 {
                assert(piece =~= s);
            } else {
                let head = joined(before.drop_last()) + seq![','];
                assert(head + before.last() == s.drop_last());
                assert(head + piece =~= (head + before.last()).push(s.last()));
                assert(s.drop_last().push(s.last()) =~= s);
            }
        }
    }
}

/// A run of characters without white space is one word.
pub proof fn law_run_is_one_word(w: Seq<char>)
    requires
        is_word(w),
    ensures
        words(w) == seq![w],
{
    assert(!white_space(w[0]));
    lemma_word_length(w, w.len() as int);
    assert(w.take(w.len() as int) =~= w);
    assert(words(w.skip(w.len() as int)) =~= Seq::empty());
    assert(words(w) =~= seq![w]);
}

/// No piece between commas holds a comma.
pub proof fn law_fields_hold_no_comma(s: Seq<char>, k: int)
    requires
        0 <= k < fields(s).len(),
    ensures
        !fields(s)[k].contains(','),
    decreases s.len(),
{
    if s.len() > 0 {
        let before = fields(s.drop_last());
        law_fields_join(s.drop_last());
        if k < before.len() {
            law_fields_hold_no_comma(s.drop_last(), k);
        }
        if s.last() != ',' && k == before.len() - 1 {
            let (old_piece, piece) = (before[k], fields(s)[k]);
            assert(piece =~= old_piece.push(s.last()));
            if piece.contains(',') {
                let i = choose|i: int| 0 <= i < piece.len() && piece[i] == ',';
                assert(old_piece[i] == ',');
            }
        }
    }
}

/// The characters that are white space, by their numbers.
pub proof fn law_white_space_characters(c: char)
    ensures
        white_space(c) <==> {
            let u = c as u32;
            ||| 9 <= u <= 13
            ||| u == 32
            ||| u == 0x85
            ||| u == 0xa0
            ||| u == 0x1680
            ||| 0x2000 <= u <= 0x200a
            ||| u == 0x2028 || u == 0x2029
            ||| u == 0x202f
            ||| u == 0x205f
            ||| u == 0x3000
        },
{
}

/// The number that a run of decimal digits stands for.
pub open spec fn number_of(digits: Seq<char>) -> int
    decreases digits.len(),
{
    if digits.len() == 0 {
        0
    } else {
        10 * number_of(digits.drop_last()) + (digits.last() as int - '0' as int)
    }
}

/// The decimal digits of a number are digits, stand for the number, and do not begin with a zero
/// unless they are just that.
pub proof fn law_decimal_reads_back(n: nat)
    ensures
        number_of(decimal_nat(n)) == n,
        decimal_nat(n).len() > 0,
        forall|i: int|
            0 <= i < decimal_nat(n).len() ==> '0' <= #[trigger] decimal_nat(n)[i] <= '9',
        n > 0 ==> decimal_nat(n)[0] != '0',
        n == 0 ==> decimal_nat(n).len() == 1,
    decreases n,
{
    let d = decimal_nat(n);
    if n < 10 {
        assert(d.drop_last() =~= Seq::empty());
        assert(number_of(d.drop_last()) == 0);
    } else {
        law_decimal_reads_back(n / 10);
        assert(d.drop_last() =~= decimal_nat(n / 10));
    }
}

/// A negative number is written as a minus sign and the number without it.
pub proof fn law_decimal_sign(i: int)
    ensures
        i >= 0 ==> decimal(i) == decimal_nat(i as nat),
        i < 0 ==> decimal(i) == seq!['-'] + decimal_nat((-i) as nat),
{
}

/// The contents of a list of strings are those of its strings, in the same order.
pub proof fn law_texts_are_of_the_strings(list: Seq<String>)
    ensures
        texts(list).len() == list.len(),
        forall|i: int| 0 <= i < list.len() ==> #[trigger] texts(list)[i] == list[i]@,
{
}

} // verus!
