//! Device name patterns with the wildcard `*`.

use vstd::prelude::*;

use crate::text::chars_of;

verus! {

/// Whether `text` spells `pattern` with every `*` replaced by some run of characters, possibly
/// none.
pub open spec fn glob(pattern: Seq<char>, text: Seq<char>) -> bool
    decreases pattern.len(),
{
    if pattern.len() == 0 {
        text.len() == 0
    } else if pattern[0] == '*' {
        exists|k: int|
            0 <= k <= text.len() && glob(pattern.skip(1), #[trigger] text.skip(k))
    } else {
        text.len() > 0 && text[0] == pattern[0] && glob(pattern.skip(1), text.skip(1))
    }
}

/// Whether `text` begins with `part`.
pub open spec fn starts_with(text: Seq<char>, part: Seq<char>) -> bool {
    part.len() <= text.len() && text.take(part.len() as int) == part
}

/// Whether `text` ends with `part`.
pub open spec fn ends_with(text: Seq<char>, part: Seq<char>) -> bool {
    part.len() <= text.len() && text.skip(text.len() - part.len()) == part
}

/// What a device name pattern accepts: the names that it spells. The empty pattern accepts every
/// name.
pub open spec fn pattern_accepts(pattern: Seq<char>, text: Seq<char>) -> bool {
    pattern.len() == 0 || glob(pattern, text)
}

/// Whether `part` stands in `text` at position `at`.
pub open spec fn occurs_at(text: Seq<char>, part: Seq<char>, at: int) -> bool {
    0 <= at <= text.len() && starts_with(text.skip(at), part)
}

/// A pattern that begins with a run of literal characters needs that run at the start of the text.
proof fn lemma_literal_prefix(part: Seq<char>, rest: Seq<char>, text: Seq<char>)
    requires
        !part.contains('*'),
    ensures
        glob(part + rest, text) <==> starts_with(text, part) && glob(
            rest,
            text.skip(part.len() as int),
        ),
    decreases part.len(),
{
    let pattern = part + rest;
    if part.len() == 0 {
        assert(pattern =~= rest);
        assert(text.skip(0) =~= text);
        assert(text.take(0) =~= part);
    } else {
        assert(part[0] != '*') by {
            assert(part.contains(part[0]));
        }
        let tail = part.skip(1);
        assert(!tail.contains('*')) by {
            if tail.contains('*') {
                let i = choose|i: int| 0 <= i < tail.len() && tail[i] == '*';
                assert(part[i + 1] == '*');
            }
        }
        assert(pattern.skip(1) =~= tail + rest);
        if text.len() > 0 {
            lemma_literal_prefix(tail, rest, text.skip(1));
            if part.len() <= text.len() {
                assert(text.skip(1).skip(tail.len() as int) =~= text.skip(part.len() as int));
            }
            if starts_with(text.skip(1), tail) && text[0] == part[0] {
                assert(text.take(part.len() as int) =~= part) by {
                    assert forall|i: int| 0 <= i < part.len() implies text[i] == part[i] by {
                        if i > 0 {
                            assert(text.skip(1).take(tail.len() as int)[i - 1] == tail[i - 1]);
                        }
                    }
                }
            }
            if starts_with(text, part) {
                assert(text.take(part.len() as int)[0] == part[0]);
                assert(text.skip(1).take(tail.len() as int) =~= tail) by {
                    assert forall|i: int| 0 <= i < tail.len() implies text.skip(1)[i] == tail[i] by {
                        assert(text.take(part.len() as int)[i + 1] == part[i + 1]);
                    }
                }
            }
        }
    }
}

/// A leading wildcard followed by more: the rest of the pattern is met from some position on.
proof fn lemma_star(rest: Seq<char>, text: Seq<char>)
    ensures
        glob(seq!['*'] + rest, text) <==> exists|k: int|
            0 <= k <= text.len() && glob(rest, #[trigger] text.skip(k)),
{
    let pattern = seq!['*'] + rest;
    assert(pattern.skip(1) =~= rest);
    assert(pattern[0] == '*');
    if glob(pattern, text) {
        let k = choose|k: int| 0 <= k <= text.len() && glob(pattern.skip(1), #[trigger] text.skip(k));
        assert(glob(rest, text.skip(k)));
    }
    if exists|k: int| 0 <= k <= text.len() && glob(rest, #[trigger] text.skip(k)) {
        let k = choose|k: int| 0 <= k <= text.len() && glob(rest, #[trigger] text.skip(k));
        assert(glob(pattern.skip(1), text.skip(k)));
    }
}

/// What a wildcard pattern accepts, it also accepts behind any run of characters.
proof fn lemma_star_absorbs(rest: Seq<char>, text: Seq<char>, from: int, to: int)
    requires
        0 <= from <= to <= text.len(),
        glob(seq!['*'] + rest, text.skip(to)),
    ensures
        glob(seq!['*'] + rest, text.skip(from)),
{
    lemma_star(rest, text.skip(to));
    lemma_star(rest, text.skip(from));
    let k = choose|k: int| 0 <= k <= text.skip(to).len() && glob(rest, #[trigger] text.skip(to).skip(k));
    assert(text.skip(to).skip(k) =~= text.skip(from).skip(to - from + k));
}

/// Between two wildcards it is enough to look at the first place where the literal part stands.
proof fn lemma_first_occurrence(part: Seq<char>, rest: Seq<char>, text: Seq<char>, first: int)
    requires
        !part.contains('*'),
        occurs_at(text, part, first),
        forall|at: int| 0 <= at < first ==> !occurs_at(text, part, at),
    ensures
        glob(seq!['*'] + part + (seq!['*'] + rest), text) <==> glob(
            seq!['*'] + rest,
            text.skip(first + part.len()),
        ),
{
    let tail = seq!['*'] + rest;
    assert(seq!['*'] + part + tail =~= seq!['*'] + (part + tail));
    lemma_star(part + tail, text);
    if glob(tail, text.skip(first + part.len())) {
        lemma_literal_prefix(part, tail, text.skip(first));
        assert(text.skip(first).skip(part.len() as int) =~= text.skip(first + part.len()));
    }
    if exists|k: int| 0 <= k <= text.len() && glob(part + tail, #[trigger] text.skip(k)) {
        let k = choose|k: int| 0 <= k <= text.len() && glob(part + tail, #[trigger] text.skip(k));
        lemma_literal_prefix(part, tail, text.skip(k));
        assert(occurs_at(text, part, k));
        assert(text.skip(k).skip(part.len() as int) =~= text.skip(k + part.len()));
        lemma_star_absorbs(rest, text, first + part.len(), k + part.len());
    }
}

/// A literal part that stands nowhere in the text cannot be spelled.
proof fn lemma_no_occurrence(part: Seq<char>, rest: Seq<char>, text: Seq<char>)
    requires
        !part.contains('*'),
        forall|at: int| 0 <= at <= text.len() ==> !occurs_at(text, part, at),
    ensures
        !glob(seq!['*'] + part + rest, text),
{
    assert(seq!['*'] + part + rest =~= seq!['*'] + (part + rest));
    lemma_star(part + rest, text);
    if exists|k: int| 0 <= k <= text.len() && glob(part + rest, #[trigger] text.skip(k)) {
        let k = choose|k: int| 0 <= k <= text.len() && glob(part + rest, #[trigger] text.skip(k));
        lemma_literal_prefix(part, rest, text.skip(k));
        assert(occurs_at(text, part, k));
    }
}

/// Behind the last wildcard the literal part must end the text.
proof fn lemma_last_part(part: Seq<char>, text: Seq<char>)
    requires
        !part.contains('*'),
    ensures
        glob(seq!['*'] + part, text) <==> ends_with(text, part),
{
    lemma_star(part, text);
    assert(part + Seq::<char>::empty() =~= part);
    if ends_with(text, part) {
        let k = text.len() - part.len();
        lemma_literal_prefix(part, Seq::<char>::empty(), text.skip(k));
        assert(text.skip(k).take(part.len() as int) =~= text.skip(k));
        assert(glob(part, text.skip(k)));
    }
    if exists|k: int| 0 <= k <= text.len() && glob(part, #[trigger] text.skip(k)) {
        let k = choose|k: int| 0 <= k <= text.len() && glob(part, #[trigger] text.skip(k));
        lemma_literal_prefix(part, Seq::<char>::empty(), text.skip(k));
        assert(text.skip(k).skip(part.len() as int).len() == 0);
        assert(text.skip(k).take(part.len() as int) =~= text.skip(k));
    }
}

/// A run of literal characters spells only itself.
proof fn lemma_plain(part: Seq<char>, text: Seq<char>)
    requires
        !part.contains('*'),
    ensures
        glob(part, text) <==> text == part,
{
    assert(part + Seq::<char>::empty() =~= part);
    lemma_literal_prefix(part, Seq::<char>::empty(), text);
    if part.len() == text.len() {
        assert(text.take(part.len() as int) =~= text);
    }
}

/// Whether `pattern[from..to]` stands in `text` at position `at`.
fn part_at(pattern: &Vec<char>, from: usize, to: usize, text: &Vec<char>, at: usize) -> (found: bool)
    requires
        from <= to <= pattern.len(),
        at <= text.len(),
    ensures
        found == starts_with(text@.skip(at as int), pattern@.subrange(from as int, to as int)),
{
    let ghost part = pattern@.subrange(from as int, to as int);
    let ghost tail = text@.skip(at as int);
    if to - from > text.len() - at {
        return false;
    }
    for i in 0..to - from
        invariant
            from <= to <= pattern.len(),
            at <= text.len(),
            to - from <= text.len() - at,
            part == pattern@.subrange(from as int, to as int),
            tail == text@.skip(at as int),
            forall|j: int| 0 <= j < i ==> tail[j] == part[j],
    {
        if pattern[from + i] != text[at + i] {
            assert(tail.take(part.len() as int)[i as int] != part[i as int]);
            return false;
        }
    }
    assert(tail.take(part.len() as int) =~= part);
    true
}

/// The first position from `start` on where `pattern[from..to]` stands in `text`.
fn find_part(
    pattern: &Vec<char>,
    from: usize,
    to: usize,
    text: &Vec<char>,
    start: usize,
) -> (found: Option<usize>)
    requires
        from <= to <= pattern.len(),
        start <= text.len(),
    ensures
        ({
            let part = pattern@.subrange(from as int, to as int);
            match found {
                Some(at) => {
                    &&& start <= at
                    &&& at + part.len() <= text.len()
                    &&& occurs_at(text@, part, at as int)
                    &&& forall|k: int| start <= k < at ==> !occurs_at(text@, part, k)
                },
                None => forall|k: int| start <= k <= text.len() ==> !occurs_at(text@, part, k),
            }
        }),
{
    let ghost part = pattern@.subrange(from as int, to as int);
    let mut at = start;
    loop
        invariant
            from <= to <= pattern.len(),
            start <= at <= text.len(),
            part == pattern@.subrange(from as int, to as int),
            forall|k: int| start <= k < at ==> !occurs_at(text@, part, k),
        decreases text.len() - at,
    {
        if part_at(pattern, from, to, text, at) {
            return Some(at);
        }
        if at == text.len() {
            return None;
        }
        at += 1;
    }
}

/// The first position from `start` on that holds a wildcard, or the length if there is none.
fn next_star(pattern: &Vec<char>, start: usize) -> (end: usize)
    requires
        start <= pattern.len(),
    ensures
        start <= end <= pattern.len(),
        !pattern@.subrange(start as int, end as int).contains('*'),
        end < pattern.len() ==> pattern[end as int] == '*',
{
    let mut end = start;
    while end < pattern.len() && pattern[end] != '*'
        invariant
            start <= end <= pattern.len(),
            forall|i: int| start <= i < end ==> pattern[i] != '*',
        decreases pattern.len() - end,
    {
        end += 1;
    }
    assert forall|i: int| 0 <= i < end - start implies pattern@.subrange(
        start as int,
        end as int,
    )[i] != '*' by {
        assert(pattern[start + i] != '*');
    }
    end
}

/// Match a pattern with wildcards (`*`) against a device name.
///
/// `*ELAN*4448` accepts `ELAN Touchpad 4448`.
pub fn wildcard_match(pattern: &str, text: &str) -> (matched: bool)
    ensures
        matched == pattern_accepts(pattern@, text@),
{
    let p = chars_of(pattern);
    let t = chars_of(text);
    let first = next_star(&p, 0);
    let ghost head = p@.subrange(0, first as int);
    if p.len() == 0 {
        return true;
    }
    if first == p.len() {
        assert(head =~= p@);
        proof {
            lemma_plain(p@, t@);
        }
        if p.len() != t.len() {
            return false;
        }
        assert(t@.skip(0).take(head.len() as int) =~= t@);
        return part_at(&p, 0, first, &t, 0);
    }
    assert(t@.skip(0) =~= t@);
    proof {
        assert(p@ =~= head + p@.skip(first as int));
        lemma_literal_prefix(head, p@.skip(first as int), t@);
    }
    if !part_at(&p, 0, first, &t, 0) {
        return false;
    }
    let mut star = first;
    let mut pos = first;
    loop
        invariant
            p@ == pattern@,
            t@ == text@,
            star < p.len(),
            p[star as int] == '*',
            pos <= t.len(),
            glob(p@, t@) == glob(p@.skip(star as int), t@.skip(pos as int)),
        decreases p.len() - star,
    {
        let next = next_star(&p, star + 1);
        let ghost part = p@.subrange(star + 1, next as int);
        let ghost here = t@.skip(pos as int);
        if next == p.len() {
            proof {
                assert(p@.skip(star as int) =~= seq!['*'] + part);
                lemma_last_part(part, here);
            }
            if next - (star + 1) > t.len() - pos {
                return false;
            }
            let at = t.len() - (next - (star + 1));
            let matched = part_at(&p, star + 1, next, &t, at);
            proof {
                assert(here.skip(here.len() - part.len()) =~= t@.skip(at as int));
                assert(t@.skip(at as int).take(part.len() as int) =~= t@.skip(at as int));
            }
            return matched;
        }
        let ghost rest = p@.skip(next + 1);
        assert(p@.skip(star as int) =~= seq!['*'] + part + (seq!['*'] + rest));
        assert(p@.skip(next as int) =~= seq!['*'] + rest);
        assert forall|k: int| 0 <= k <= here.len() implies occurs_at(here, part, k) == occurs_at(
            t@,
            part,
            pos + k,
        ) by {
            assert(here.skip(k) =~= t@.skip(pos + k));
        }
        match find_part(&p, star + 1, next, &t, pos) {
            Some(at) => {
                proof {
                    assert(occurs_at(here, part, at - pos));
                    lemma_first_occurrence(part, rest, here, at - pos);
                    assert(here.skip(at - pos + part.len()) =~= t@.skip(at + part.len()));
                }
                pos = at + (next - (star + 1));
                star = next;
            },
            None => {
                proof {
                    lemma_no_occurrence(part, seq!['*'] + rest, here);
                }
                return false;
            },
        }
    }
}

/// A pattern without wildcards accepts only the name that is spelled exactly like it.
pub proof fn law_plain_pattern_accepts_only_itself(pattern: Seq<char>, text: Seq<char>)
    requires
        pattern.len() > 0,
        !pattern.contains('*'),
    ensures
        pattern_accepts(pattern, text) <==> text == pattern,
{
    lemma_plain(pattern, text);
}

/// The empty pattern accepts every name.
pub proof fn law_empty_pattern_accepts_all(text: Seq<char>)
    ensures
        pattern_accepts(Seq::<char>::empty(), text),
{
}

/// Every pattern accepts the name that is spelled exactly like it.
pub proof fn law_pattern_accepts_itself(pattern: Seq<char>)
    ensures
        pattern_accepts(pattern, pattern),
{
    lemma_glob_reflexive(pattern);
}

proof fn lemma_glob_reflexive(pattern: Seq<char>)
    ensures
        glob(pattern, pattern),
    decreases pattern.len(),
{
    if pattern.len() > 0 {
        lemma_glob_reflexive(pattern.skip(1));
    }
}

/// The pattern `*` accepts every name.
pub proof fn law_lone_star_accepts_all(text: Seq<char>)
    ensures
        pattern_accepts(seq!['*'], text),
{
    assert(seq!['*'] =~= seq!['*'] + Seq::<char>::empty());
    lemma_last_part(Seq::<char>::empty(), text);
    assert(text.skip(text.len() as int) =~= Seq::<char>::empty());
}

/// A literal part between two wildcards accepts exactly the names that hold the part somewhere.
pub proof fn law_starred_part_is_found_anywhere(part: Seq<char>, text: Seq<char>)
    requires
        !part.contains('*'),
    ensures
        pattern_accepts(seq!['*'] + part + seq!['*'], text) <==> exists|at: int|
            occurs_at(text, part, at),
{
    let pattern = seq!['*'] + part + seq!['*'];
    if exists|at: int| occurs_at(text, part, at) {
        let at = choose|at: int| occurs_at(text, part, at);
        lemma_star(part + seq!['*'], text);
        assert(pattern =~= seq!['*'] + (part + seq!['*']));
        lemma_literal_prefix(part, seq!['*'], text.skip(at));
        law_lone_star_accepts_all(text.skip(at).skip(part.len() as int));
        assert(glob(part + seq!['*'], text.skip(at)));
    } else {
        lemma_no_occurrence(part, seq!['*'], text);
    }
}

/// Two wildcards in a row mean the same as one.
pub proof fn law_double_star_is_one_star(before: Seq<char>, after: Seq<char>, text: Seq<char>)
    ensures
        pattern_accepts(before + seq!['*', '*'] + after, text) == pattern_accepts(
            before + seq!['*'] + after,
            text,
        ),
{
    lemma_double_star(before, after, text);
}

proof fn lemma_double_star(before: Seq<char>, after: Seq<char>, text: Seq<char>)
    ensures
        glob(before + seq!['*', '*'] + after, text) == glob(before + seq!['*'] + after, text),
    decreases before.len(),
{
    let two = before + seq!['*', '*'] + after;
    let one = before + seq!['*'] + after;
    if before.len() == 0 {
        assert(one =~= seq!['*'] + after);
        assert(two =~= seq!['*'] + one);
        lemma_star(one, text);
        if glob(two, text) {
            let k = choose|k: int| 0 <= k <= text.len() && glob(one, #[trigger] text.skip(k));
            lemma_star_absorbs(after, text, 0, k);
            assert(text.skip(0) =~= text);
        }
        if glob(one, text) {
            assert(text.skip(0) =~= text);
            assert(glob(one, text.skip(0)));
        }
    } else {
        assert(two.skip(1) =~= before.skip(1) + seq!['*', '*'] + after);
        assert(one.skip(1) =~= before.skip(1) + seq!['*'] + after);
        if before[0] == '*' {
            assert forall|k: int| 0 <= k <= text.len() implies glob(
                two.skip(1),
                #[trigger] text.skip(k),
            ) == glob(one.skip(1), text.skip(k)) by {
                lemma_double_star(before.skip(1), after, text.skip(k));
            }
            assert(two =~= seq!['*'] + two.skip(1));
            assert(one =~= seq!['*'] + one.skip(1));
            lemma_star(two.skip(1), text);
            lemma_star(one.skip(1), text);
        } else if text.len() > 0 {
            lemma_double_star(before.skip(1), after, text.skip(1));
        }
    }
}

/// What a pattern with a wildcard accepts, piece by piece: the part before the first wildcard begins
/// the name, and from some place behind it the rest of the pattern accepts the rest of the name. With
/// patterns without wildcards in the end, this says of every pattern what it accepts.
pub proof fn law_first_wildcard_splits(part: Seq<char>, rest: Seq<char>, text: Seq<char>)
    requires
        !part.contains('*'),
    ensures
        pattern_accepts(part + seq!['*'] + rest, text) <==> part.len() <= text.len() && text.take(
            part.len() as int,
        ) == part && exists|k: int|
            part.len() <= k <= text.len() && pattern_accepts(rest, #[trigger] text.skip(k)),
{
    let tail = seq!['*'] + rest;
    assert(part + seq!['*'] + rest =~= part + tail);
    lemma_literal_prefix(part, tail, text);
    if part.len() <= text.len() {
        let n = part.len() as int;
        let here = text.skip(n);
        lemma_star(rest, here);
        if glob(tail, here) {
            let k = choose|k: int| 0 <= k <= here.len() && glob(rest, #[trigger] here.skip(k));
            assert(here.skip(k) =~= text.skip(n + k));
            assert(pattern_accepts(rest, text.skip(n + k)));
        }
        if exists|k: int| n <= k <= text.len() && pattern_accepts(rest, #[trigger] text.skip(k)) {
            let k = choose|k: int|
                n <= k <= text.len() && pattern_accepts(rest, #[trigger] text.skip(k));
            if rest.len() == 0 {
                assert(glob(rest, here.skip(here.len() as int)));
            } else {
                assert(here.skip(k - n) =~= text.skip(k));
                assert(glob(rest, here.skip(k - n)));
            }
        }
    }
}

} // verus!
