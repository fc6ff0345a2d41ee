//! Text as sequences of characters: white space, trimming, lines, joining,
//! splitting and decimal numerals.

use vstd::prelude::*;

verus! {

/// The characters with the Unicode `White_Space` property.
pub open spec fn is_white(c: char) -> bool {
    ||| '\u{9}' <= c <= '\u{d}'
    ||| c == ' '
    ||| c == '\u{85}'
    ||| c == '\u{a0}'
    ||| c == '\u{1680}'
    ||| '\u{2000}' <= c <= '\u{200a}'
    ||| c == '\u{2028}'
    ||| c == '\u{2029}'
    ||| c == '\u{202f}'
    ||| c == '\u{205f}'
    ||| c == '\u{3000}'
}

/// `s` without its leading white space.
pub open spec fn trim_start(s: Seq<char>) -> Seq<char>
    decreases s.len(),
{
    if s.len() > 0 && is_white(s[0]) {
        trim_start(s.drop_first())
    } else {
        s
    }
}

/// `s` without its trailing white space.
pub open spec fn trim_end(s: Seq<char>) -> Seq<char>
    decreases s.len(),
{
    if s.len() > 0 && is_white(s.last()) {
        trim_end(s.drop_last())
    } else {
        s
    }
}

/// `s` without the white space around it.
pub open spec fn trim(s: Seq<char>) -> Seq<char> {
    trim_end(trim_start(s))
}

/// Does this character have the `White_Space` property?
pub fn is_whitespace(c: char) -> (r: bool)
    ensures
        r == is_white(c),
{
    ('\u{9}' <= c && c <= '\u{d}') || c == ' ' || c == '\u{85}' || c == '\u{a0}' || c == '\u{1680}'
        || ('\u{2000}' <= c && c <= '\u{200a}') || c == '\u{2028}' || c == '\u{2029}'
        || c == '\u{202f}' || c == '\u{205f}' || c == '\u{3000}'
}

/// The characters of `s`, in order.
pub fn chars_of(s: &str) -> (r: Vec<char>)
    ensures
        r@ == s@,
{
    let mut r: Vec<char> = Vec::new();
    for c in it: s.chars()
        invariant
            r@ == it.seq().take(it.index()),
            it.seq() == s@,
    {
        r.push(c);
    }
    r
}

/// Do the two texts hold the same characters?
pub fn same(a: &str, b: &str) -> (r: bool)
    ensures
        r == (a@ == b@),
{
    a.to_owned() == b.to_owned()
}

proof fn lemma_trim_start_skips(s: Seq<char>, n: int)
    requires
        0 <= n <= s.len(),
        forall|i: int| 0 <= i < n ==> is_white(#[trigger] s[i]),
    ensures
        trim_start(s) == trim_start(s.skip(n)),
    decreases n,
{
    if n == 0 {
        assert(s.skip(0) =~= s);
    } else {
        assert(is_white(s[0]));
        assert forall|i: int| 0 <= i < n - 1 implies is_white(#[trigger] s.drop_first()[i]) by {
            assert(s.drop_first()[i] == s[i + 1]);
        }
        lemma_trim_start_skips(s.drop_first(), n - 1);
        assert(s.drop_first().skip(n - 1) =~= s.skip(n));
    }
}

proof fn lemma_trim_end_drops(s: Seq<char>, n: int)
    requires
        0 <= n <= s.len(),
        forall|i: int| n <= i < s.len() ==> is_white(#[trigger] s[i]),
    ensures
        trim_end(s) == trim_end(s.take(n)),
    decreases s.len() - n,
{
    if n == s.len() {
        assert(s.take(n) =~= s);
    } else {
        assert(is_white(s[s.len() - 1]));
        lemma_trim_end_drops(s.drop_last(), n);
        assert(s.drop_last().take(n) =~= s.take(n));
    }
}

/// `s` without the white space around it.
pub fn trimmed(s: &str) -> (r: String)
    ensures
        r@ == trim(s@),
{
    let cs: Vec<char> = chars_of(s);
    let mut start: usize = 0;
    while start < cs.len() && is_whitespace(cs[start])
        invariant
            start <= cs.len(),
            forall|i: int| 0 <= i < start ==> is_white(#[trigger] cs@[i]),
        decreases cs.len() - start,
    {
        start += 1;
    }
    let mut end: usize = cs.len();
    while end > start && is_whitespace(cs[end - 1])
        invariant
            start <= end <= cs.len(),
            forall|i: int| end <= i < cs.len() ==> is_white(#[trigger] cs@[i]),
        decreases end,
    {
        end -= 1;
    }
    proof {
        let t = s@.skip(start as int);
        lemma_trim_start_skips(s@, start as int);
        assert(t.len() > 0 ==> t[0] == s@[start as int]);
        assert(trim_start(s@) == t);
        let n = end - start;
        assert forall|i: int| n <= i < t.len() implies is_white(#[trigger] t[i]) by {
            assert(t[i] == s@[i + start]);
        }
        lemma_trim_end_drops(t, n);
        assert(t.take(n) =~= s@.subrange(start as int, end as int));
        if n > 0 {
            assert(t.take(n).last() == s@[end - 1]);
        }
    }
    s.substring_char(start, end).to_owned()
}

/// The texts that a sequence of strings holds.
pub open spec fn texts(v: Seq<String>) -> Seq<Seq<char>> {
    v.map_values(|s: String| s@)
}

pub proof fn lemma_texts_push(v: Seq<String>, s: String)
    ensures
        texts(v.push(s)) == texts(v).push(s@),
{
    assert(texts(v.push(s)) =~= texts(v).push(s@));
}

/// `s` cut at every `c`: the pieces between them, never none.
pub open spec fn split_on(s: Seq<char>, c: char) -> Seq<Seq<char>>
    decreases s.len(),
{
    if s.len() == 0 {
        seq![Seq::empty()]
    } else {
        let pieces = split_on(s.drop_last(), c);
        if s.last() == c {
            pieces.push(Seq::empty())
        } else {
            pieces.drop_last().push(pieces.last().push(s.last()))
        }
    }
}

pub proof fn lemma_split_on_nonempty(s: Seq<char>, c: char)
    ensures
        split_on(s, c).len() >= 1,
    decreases s.len(),
{
    if s.len() > 0 {
        lemma_split_on_nonempty(s.drop_last(), c);
    }
}

/// Cutting at a separator that is known cuts the two sides apart.
pub proof fn lemma_split_on_concat(a: Seq<char>, c: char, b: Seq<char>)
    ensures
        split_on(a.push(c) + b, c) == split_on(a, c) + split_on(b, c),
    decreases b.len(),
{
    lemma_split_on_nonempty(a, c);
    lemma_split_on_nonempty(b, c);
    if b.len() == 0 {
        assert(a.push(c) + b =~= a.push(c));
        assert(a.push(c).drop_last() =~= a);
        assert(split_on(a, c).push(Seq::empty()) =~= split_on(a, c) + split_on(b, c));
    } else {
        let whole = a.push(c) + b;
        lemma_split_on_concat(a, c, b.drop_last());
        lemma_split_on_nonempty(b.drop_last(), c);
        assert(whole.drop_last() =~= a.push(c) + b.drop_last());
        assert(whole.last() == b.last());
        let left = split_on(a, c);
        let right = split_on(b.drop_last(), c);
        if b.last() == c {
            assert((left + right).push(Seq::empty()) =~= left + right.push(Seq::empty()));
        } else {
            assert((left + right).last() == right.last());
            assert((left + right).drop_last().push(right.last().push(b.last())) =~= left
                + right.drop_last().push(right.last().push(b.last())));
        }
    }
}

/// A text without the separator is its only piece.
pub proof fn lemma_split_on_absent(s: Seq<char>, c: char)
    requires
        !s.contains(c),
    ensures
        split_on(s, c) == seq![s],
    decreases s.len(),
{
    if s.len() > 0 {
        assert(s[s.len() - 1] != c);
        assert forall|i: int| 0 <= i < s.len() - 1 implies s.drop_last()[i] != c by {
            assert(s[i] != c);
        }
        lemma_split_on_absent(s.drop_last(), c);
        assert(split_on(s, c) =~= seq![s.drop_last().push(s.last())]);
        assert(s.drop_last().push(s.last()) =~= s);
    } else {
        assert(s =~= Seq::empty());
    }
}

/// The pieces with `c` between each two of them.
pub open spec fn join(pieces: Seq<Seq<char>>, c: char) -> Seq<char>
    decreases pieces.len(),
{
    if pieces.len() == 0 {
        Seq::empty()
    } else if pieces.len() == 1 {
        pieces[0]
    } else {
        join(pieces.drop_last(), c).push(c) + pieces.last()
    }
}

/// Joining the pieces of a text with what cut them gives the text back.
pub proof fn lemma_join_split_on(s: Seq<char>, c: char)
    ensures
        join(split_on(s, c), c) == s,
    decreases s.len(),
{
    if s.len() > 0 {
        let before = split_on(s.drop_last(), c);
        lemma_join_split_on(s.drop_last(), c);
        lemma_split_on_nonempty(s.drop_last(), c);
        let pieces = split_on(s, c);
        if s.last() == c {
            assert(pieces.drop_last() =~= before);
            assert(join(pieces, c) =~= s.drop_last().push(c));
            assert(s =~= s.drop_last().push(c));
        } else {
            assert(pieces.drop_last() =~= before.drop_last());
            assert(s =~= s.drop_last().push(s.last()));
            if before.len() == 1 {
                assert(join(pieces, c) =~= before[0].push(s.last()));
            } else {
                assert(join(pieces, c) =~= join(before, c).push(s.last()));
            }
        }
    } else {
        assert(s =~= Seq::empty());
    }
}

/// A line without the carriage return that belonged to its line ending.
pub open spec fn strip_cr(line: Seq<char>) -> Seq<char> {
    if line.len() > 0 && line.last() == '\r' {
        line.drop_last()
    } else {
        line
    }
}

/// The lines of `s`. A line ends with a newline, or with a carriage return and
/// a newline, and neither belongs to it; the last line may do without.
pub open spec fn lines(s: Seq<char>) -> Seq<Seq<char>> {
    let pieces = split_on(s, '\n');
    let ended = pieces.drop_last().map_values(|line: Seq<char>| strip_cr(line));
    if pieces.last().len() > 0 {
        ended.push(pieces.last())
    } else {
        ended
    }
}

/// The lines of `s`, as [`lines`] has them.
pub fn lines_of(s: &str) -> (r: Vec<String>)
    ensures
        texts(r@) == lines(s@),
{
    let cs: Vec<char> = chars_of(s);
    let mut r: Vec<String> = Vec::new();
    let mut start: usize = 0;
    let mut i: usize = 0;
    proof {
        assert(s@.take(0) =~= Seq::empty());
        assert(texts(r@) =~= split_on(s@.take(0), '\n').drop_last().map_values(
            |line: Seq<char>| strip_cr(line),
        ));
        assert(s@.subrange(0, 0) =~= split_on(s@.take(0), '\n').last());
    }
    while i < cs.len()
        invariant
            cs@ == s@,
            start <= i <= cs.len(),
            split_on(s@.take(i as int), '\n').len() >= 1,
            texts(r@) == split_on(s@.take(i as int), '\n').drop_last().map_values(
                |line: Seq<char>| strip_cr(line),
            ),
            s@.subrange(start as int, i as int) == split_on(s@.take(i as int), '\n').last(),
        decreases cs.len() - i,
    {
        let ghost before = split_on(s@.take(i as int), '\n');
        proof {
            assert(s@.take(i + 1).drop_last() =~= s@.take(i as int));
            assert(s@.take(i + 1).last() == s@[i as int]);
        }
        if cs[i] == '\n' {
            let end: usize = if i > start && cs[i - 1] == '\r' {
                i - 1
            } else {
                i
            };
            let line: String = s.substring_char(start, end).to_owned();
            proof {
                let piece = s@.subrange(start as int, i as int);
                if i > start {
                    assert(piece.last() == s@[i - 1]);
                    assert(piece.drop_last() =~= s@.subrange(start as int, i - 1));
                }
                assert(line@ == strip_cr(before.last()));
                lemma_texts_push(r@, line);
                assert(before.push(Seq::empty()).drop_last() =~= before);
                assert(before.map_values(|line: Seq<char>| strip_cr(line))
                    =~= before.drop_last().map_values(|line: Seq<char>| strip_cr(line)).push(
                    strip_cr(before.last()),
                ));
                assert(s@.subrange(i + 1, i + 1) =~= Seq::empty());
            }
            r.push(line);
            start = i + 1;
        } else {
            proof {
                let piece = s@.subrange(start as int, i as int);
                assert(s@.subrange(start as int, i + 1) =~= piece.push(s@[i as int]));
                assert(before.drop_last().push(before.last().push(s@[i as int])).drop_last()
                    =~= before.drop_last());
            }
        }
        i += 1;
    }
    proof {
        assert(s@.take(i as int) =~= s@);
    }
    if start < i {
        let line: String = s.substring_char(start, i).to_owned();
        proof {
            lemma_texts_push(r@, line);
        }
        r.push(line);
    }
    r
}

/// The texts with a newline between each two of them.
pub fn join_lines(lines: &Vec<String>) -> (r: String)
    ensures
        r@ == join(texts(lines@), '\n'),
{
    let mut r: String = String::new();
    let mut i: usize = 0;
    while i < lines.len()
        invariant
            i <= lines.len(),
            r@ == join(texts(lines@).take(i as int), '\n'),
        decreases lines.len() - i,
    {
        proof {
            assert(texts(lines@).take(i + 1).drop_last() =~= texts(lines@).take(i as int));
            assert(texts(lines@).take(i + 1).last() == lines@[i as int]@);
            reveal_strlit("\n");
        }
        if i > 0 {
            r.append("\n");
            assert(r@ =~= join(texts(lines@).take(i as int), '\n').push('\n'));
        }
        r.append(lines[i].as_str());
        assert(r@ =~= join(texts(lines@).take(i + 1), '\n'));
        i += 1;
    }
    assert(texts(lines@).take(i as int) =~= texts(lines@));
    r
}

/// Does `part` stand in `s` at index `i`?
pub open spec fn stands_at(s: Seq<char>, i: int, part: Seq<char>) -> bool {
    0 <= i <= s.len() - part.len() && s.subrange(i, i + part.len()) == part
}

/// Does `part` stand anywhere in `s`?
pub open spec fn has(s: Seq<char>, part: Seq<char>) -> bool {
    exists|i: int| #[trigger] stands_at(s, i, part)
}

/// Does `part` stand in `cs` at index `i`?
pub fn matches_at(cs: &Vec<char>, i: usize, part: &Vec<char>) -> (r: bool)
    requires
        i <= cs.len(),
    ensures
        r == stands_at(cs@, i as int, part@),
{
    if part.len() > cs.len() - i {
        return false;
    }
    let mut k: usize = 0;
    while k < part.len()
        invariant
            k <= part.len() <= cs.len() - i,
            forall|j: int| 0 <= j < k ==> cs@[i + j] == part@[j],
        decreases part.len() - k,
    {
        if cs[i + k] != part[k] {
            assert(cs@.subrange(i as int, i + part@.len())[k as int] == cs@[i + k]);
            return false;
        }
        k += 1;
    }
    assert(cs@.subrange(i as int, i + part@.len()) =~= part@);
    true
}

/// Does `part` stand anywhere in `s`?
pub fn contains(s: &str, part: &str) -> (r: bool)
    ensures
        r == has(s@, part@),
{
    let cs: Vec<char> = chars_of(s);
    let ps: Vec<char> = chars_of(part);
    let mut i: usize = 0;
    while i < cs.len()
        invariant
            cs@ == s@,
            ps@ == part@,
            i <= cs.len(),
            forall|j: int| 0 <= j < i ==> !stands_at(s@, j, part@),
        decreases cs.len() - i,
    {
        if matches_at(&cs, i, &ps) {
            return true;
        }
        i += 1;
    }
    matches_at(&cs, i, &ps)
}

/// Does `s` begin with `part`?
pub fn starts_with(s: &str, part: &str) -> (r: bool)
    ensures
        r == part@.is_prefix_of(s@),
{
    let cs: Vec<char> = chars_of(s);
    let ps: Vec<char> = chars_of(part);
    proof {
        if stands_at(s@, 0, part@) {
            assert(s@.subrange(0, part@.len() as int) == part@);
        }
    }
    matches_at(&cs, 0, &ps)
}

/// Does `s` end with `part`?
pub fn ends_with(s: &str, part: &str) -> (r: bool)
    ensures
        r == part@.is_suffix_of(s@),
{
    let cs: Vec<char> = chars_of(s);
    let ps: Vec<char> = chars_of(part);
    if ps.len() > cs.len() {
        return false;
    }
    matches_at(&cs, cs.len() - ps.len(), &ps)
}

/// `s` without `part` at its front, as often as it stands there.
pub open spec fn strip_fronts(s: Seq<char>, part: Seq<char>) -> Seq<char>
    decreases s.len(),
{
    if part.len() > 0 && part.is_prefix_of(s) {
        strip_fronts(s.skip(part.len() as int), part)
    } else {
        s
    }
}

/// `s` without `part` at its back, as often as it stands there.
pub open spec fn strip_backs(s: Seq<char>, part: Seq<char>) -> Seq<char>
    decreases s.len(),
{
    if part.len() > 0 && part.is_suffix_of(s) {
        strip_backs(s.take(s.len() - part.len()), part)
    } else {
        s
    }
}

/// `s` without `part` at its front, as often as it stands there.
pub fn without_fronts(s: &str, part: &str) -> (r: String)
    ensures
        r@ == strip_fronts(s@, part@),
{
    let cs: Vec<char> = chars_of(s);
    let ps: Vec<char> = chars_of(part);
    let mut start: usize = 0;
    assert(s@.skip(0) =~= s@);
    while ps.len() > 0 && matches_at(&cs, start, &ps)
        invariant
            cs@ == s@,
            ps@ == part@,
            start <= cs.len(),
            strip_fronts(s@, part@) == strip_fronts(s@.skip(start as int), part@),
        decreases cs.len() - start,
    {
        proof {
            let t = s@.skip(start as int);
            let n = part@.len() as int;
            assert(t.subrange(0, n) =~= s@.subrange(start as int, start + n));
            assert(t.skip(n) =~= s@.skip(start + n));
        }
        start += ps.len();
    }
    proof {
        let t = s@.skip(start as int);
        let n = part@.len() as int;
        if n > 0 && part@.is_prefix_of(t) {
            assert(t.subrange(0, n) =~= s@.subrange(start as int, start + n));
        }
        assert(t =~= s@.subrange(start as int, s@.len() as int));
    }
    s.substring_char(start, cs.len()).to_owned()
}

/// `s` without `part` at its back, as often as it stands there.
pub fn without_backs(s: &str, part: &str) -> (r: String)
    ensures
        r@ == strip_backs(s@, part@),
{
    let cs: Vec<char> = chars_of(s);
    let ps: Vec<char> = chars_of(part);
    let mut end: usize = cs.len();
    assert(s@.take(end as int) =~= s@);
    while ps.len() > 0 && ps.len() <= end && matches_at(&cs, end - ps.len(), &ps)
        invariant
            cs@ == s@,
            ps@ == part@,
            end <= cs.len(),
            strip_backs(s@, part@) == strip_backs(s@.take(end as int), part@),
        decreases end,
    {
        proof {
            let t = s@.take(end as int);
            let n = part@.len() as int;
            assert(t.subrange(end - n, end as int) =~= s@.subrange(end - n, end as int));
            assert(t.take(end - n) =~= s@.take(end - n));
        }
        end -= ps.len();
    }
    proof {
        let t = s@.take(end as int);
        let n = part@.len() as int;
        if n > 0 && part@.is_suffix_of(t) {
            assert(t.subrange(end - n, end as int) =~= s@.subrange(end - n, end as int));
        }
        assert(t =~= s@.subrange(0, end as int));
    }
    s.substring_char(0, end).to_owned()
}

/// The words of `s`: its longest runs of characters that are no white space.
pub open spec fn words(s: Seq<char>) -> Seq<Seq<char>>
    decreases s.len(),
{
    if s.len() == 0 {
        Seq::empty()
    } else {
        let before = words(s.drop_last());
        if is_white(s.last()) {
            before
        } else if s.len() == 1 || is_white(s[s.len() - 2]) {
            before.push(seq![s.last()])
        } else {
            before.drop_last().push(before.last().push(s.last()))
        }
    }
}

/// The words of `s`, as [`words`] has them.
pub fn words_of(s: &str) -> (r: Vec<String>)
    ensures
        texts(r@) == words(s@),
{
    let cs: Vec<char> = chars_of(s);
    let mut r: Vec<String> = Vec::new();
    let mut start: usize = 0;
    let mut i: usize = 0;
    assert(texts(r@) =~= words(s@.take(0)));
    while i < cs.len()
        invariant
            cs@ == s@,
            start <= i <= cs.len(),
            start == i <==> (i == 0 || is_white(s@[i - 1])),
            words(s@.take(i as int)) == if start == i {
                texts(r@)
            } else {
                texts(r@).push(s@.subrange(start as int, i as int))
            },
        decreases cs.len() - i,
    {
        proof {
            let next = s@.take(i + 1);
            assert(next.drop_last() =~= s@.take(i as int));
            assert(next.last() == s@[i as int]);
            if i > 0 {
                assert(next[next.len() - 2] == s@[i - 1]);
            }
            assert(s@.subrange(i as int, i + 1) =~= seq![s@[i as int]]);
            assert(s@.subrange(start as int, i + 1) =~= s@.subrange(start as int, i as int).push(
                s@[i as int],
            ));
            let w = texts(r@).push(s@.subrange(start as int, i as int));
            assert(w.drop_last() =~= texts(r@));
        }
        if is_whitespace(cs[i]) {
            if start < i {
                let word: String = s.substring_char(start, i).to_owned();
                proof {
                    lemma_texts_push(r@, word);
                }
                r.push(word);
            }
            start = i + 1;
        }
        i += 1;
    }
    assert(s@.take(i as int) =~= s@);
    if start < i {
        let word: String = s.substring_char(start, i).to_owned();
        proof {
            lemma_texts_push(r@, word);
        }
        r.push(word);
    }
    r
}

/// What stands behind the last `c` of `s`; all of `s` where there is none.
pub open spec fn after_last(s: Seq<char>, c: char) -> Seq<char> {
    split_on(s, c).last()
}

/// The pieces of `s` between each two `c`.
pub fn pieces_of(s: &str, c: char) -> (r: Vec<String>)
    ensures
        texts(r@) == split_on(s@, c),
{
    let cs: Vec<char> = chars_of(s);
    let mut r: Vec<String> = Vec::new();
    let mut start: usize = 0;
    let mut i: usize = 0;
    proof {
        assert(s@.take(0) =~= Seq::empty());
        assert(texts(r@) =~= split_on(s@.take(0), c).drop_last());
        assert(s@.subrange(0, 0) =~= split_on(s@.take(0), c).last());
    }
    while i < cs.len()
        invariant
            cs@ == s@,
            start <= i <= cs.len(),
            split_on(s@.take(i as int), c).len() >= 1,
            texts(r@) == split_on(s@.take(i as int), c).drop_last(),
            s@.subrange(start as int, i as int) == split_on(s@.take(i as int), c).last(),
        decreases cs.len() - i,
    {
        let ghost before = split_on(s@.take(i as int), c);
        proof {
            assert(s@.take(i + 1).drop_last() =~= s@.take(i as int));
            assert(s@.take(i + 1).last() == s@[i as int]);
        }
        if cs[i] == c {
            let piece: String = s.substring_char(start, i).to_owned();
            proof {
                lemma_texts_push(r@, piece);
                assert(before.push(Seq::empty()).drop_last() =~= before);
                assert(before =~= before.drop_last().push(before.last()));
                assert(s@.subrange(i + 1, i + 1) =~= Seq::empty());
            }
            r.push(piece);
            start = i + 1;
        } else {
            proof {
                let piece = s@.subrange(start as int, i as int);
                assert(s@.subrange(start as int, i + 1) =~= piece.push(s@[i as int]));
                assert(before.drop_last().push(before.last().push(s@[i as int])).drop_last()
                    =~= before.drop_last());
            }
        }
        i += 1;
    }
    let piece: String = s.substring_char(start, i).to_owned();
    proof {
        let whole = split_on(s@, c);
        assert(s@.take(i as int) =~= s@);
        lemma_texts_push(r@, piece);
        assert(whole =~= whole.drop_last().push(whole.last()));
    }
    r.push(piece);
    r
}

/// The decimal digit for `d`.
pub open spec fn digit(d: int) -> char {
    if d == 0 {
        '0'
    } else if d == 1 {
        '1'
    } else if d == 2 {
        '2'
    } else if d == 3 {
        '3'
    } else if d == 4 {
        '4'
    } else if d == 5 {
        '5'
    } else if d == 6 {
        '6'
    } else if d == 7 {
        '7'
    } else if d == 8 {
        '8'
    } else {
        '9'
    }
}

/// The decimal numeral of a natural number.
pub open spec fn decimal_nat(n: nat) -> Seq<char>
    decreases n,
{
    if n < 10 {
        seq![digit(n as int)]
    } else {
        decimal_nat(n / 10).push(digit((n % 10) as int))
    }
}

/// The decimal numeral of an integer, with a minus sign in front where it is
/// negative.
pub open spec fn decimal(n: int) -> Seq<char> {
    if n < 0 {
        seq!['-'] + decimal_nat((-n) as nat)
    } else {
        decimal_nat(n as nat)
    }
}

fn digit_text(d: u64) -> (r: &'static str)
    requires
        d < 10,
    ensures
        r@ == seq![digit(d as int)],
{
    proof {
        reveal_strlit("0");
        reveal_strlit("1");
        reveal_strlit("2");
        reveal_strlit("3");
        reveal_strlit("4");
        reveal_strlit("5");
        reveal_strlit("6");
        reveal_strlit("7");
        reveal_strlit("8");
        reveal_strlit("9");
    }
    let r = if d == 0 {
        "0"
    } else if d == 1 {
        "1"
    } else if d == 2 {
        "2"
    } else if d == 3 {
        "3"
    } else if d == 4 {
        "4"
    } else if d == 5 {
        "5"
    } else if d == 6 {
        "6"
    } else if d == 7 {
        "7"
    } else if d == 8 {
        "8"
    } else {
        "9"
    };
    assert(r@ =~= seq![digit(d as int)]);
    r
}

/// The decimal numeral of `n`.
pub fn decimal_u64(n: u64) -> (r: String)
    ensures
        r@ == decimal_nat(n as nat),
    decreases n,
{
    if n < 10 {
        digit_text(n).to_owned()
    } else {
        let r: String = decimal_u64(n / 10).concat(digit_text(n % 10));
        assert(r@ =~= decimal_nat(n as nat));
        r
    }
}

/// The decimal numeral of `n`.
pub fn decimal_i64(n: i64) -> (r: String)
    ensures
        r@ == decimal(n as int),
{
    if n < 0 {
        let magnitude: u64 = (-(n + 1)) as u64 + 1;
        let digits: String = decimal_u64(magnitude);
        proof {
            reveal_strlit("-");
        }
        let r: String = "-".to_owned().concat(digits.as_str());
        assert(r@ =~= decimal(n as int));
        r
    } else {
        decimal_u64(n as u64)
    }
}

/// Is `c` a decimal digit?
pub open spec fn is_digit(c: char) -> bool {
    '0' <= c <= '9'
}

/// The number that a run of decimal digits writes.
pub open spec fn digits_value(s: Seq<char>) -> nat
    decreases s.len(),
{
    if s.len() == 0 {
        0
    } else {
        digits_value(s.drop_last()) * 10 + ((s.last() as int) - ('0' as int)) as nat
    }
}

/// Is `s` a numeral: digits, at least one, and nothing else?
pub open spec fn is_numeral(s: Seq<char>) -> bool {
    s.len() > 0 && forall|i: int| 0 <= i < s.len() ==> is_digit(#[trigger] s[i])
}

/// A number's numeral is a numeral, and writes that number.
pub proof fn lemma_numeral_of_number(n: nat)
    ensures
        is_numeral(decimal_nat(n)),
        digits_value(decimal_nat(n)) == n,
    decreases n,
{
    if n < 10 {
        let s = decimal_nat(n);
        assert(s.drop_last() =~= Seq::empty());
        assert(digits_value(s.drop_last()) == 0);
        assert(s.last() as int == '0' as int + n);
    } else {
        lemma_numeral_of_number(n / 10);
        let s = decimal_nat(n);
        assert(s.drop_last() =~= decimal_nat(n / 10));
        assert(s.last() as int == '0' as int + n % 10);
        assert forall|i: int| 0 <= i < s.len() implies is_digit(#[trigger] s[i]) by {
            if i < s.len() - 1 {
                assert(s[i] == decimal_nat(n / 10)[i]);
            }
        }
    }
}

/// The number that a numeral writes, where it is one and fits.
pub fn numeral_value(s: &str) -> (r: Option<u64>)
    ensures
        match r {
            Some(n) => is_numeral(s@) && digits_value(s@) == n,
            None => !is_numeral(s@) || digits_value(s@) > u64::MAX,
        },
{
    let cs: Vec<char> = chars_of(s);
    if cs.len() == 0 {
        return None;
    }
    let mut total: u64 = 0;
    let mut fits: bool = true;
    let mut i: usize = 0;
    assert(s@.take(0) =~= Seq::empty());
    while i < cs.len()
        invariant
            cs@ == s@,
            i <= cs.len(),
            forall|j: int| 0 <= j < i ==> is_digit(#[trigger] s@[j]),
            fits ==> digits_value(s@.take(i as int)) == total,
            !fits ==> digits_value(s@.take(i as int)) > u64::MAX,
        decreases cs.len() - i,
    {
        let c: char = cs[i];
        if !('0' <= c && c <= '9') {
            assert(!is_digit(s@[i as int]));
            return None;
        }
        proof {
            assert(s@.take(i + 1).drop_last() =~= s@.take(i as int));
            assert(s@.take(i + 1).last() == s@[i as int]);
        }
        let d: u64 = c as u64 - '0' as u64;
        if fits {
            if total > (u64::MAX - d) / 10 {
                fits = false;
                assert(digits_value(s@.take(i + 1)) > u64::MAX);
            } else {
                total = total * 10 + d;
            }
        }
        i += 1;
    }
    assert(s@.take(i as int) =~= s@);
    if fits {
        Some(total)
    } else {
        None
    }
}

/// `c` in lower case, where it is an ASCII letter.
pub open spec fn lower(c: char) -> char {
    if 'A' <= c <= 'Z' {
        ((c as u8) + 32) as char
    } else {
        c
    }
}

/// `s` with its ASCII letters in lower case.
pub open spec fn lowered(s: Seq<char>) -> Seq<char> {
    s.map_values(|c: char| lower(c))
}

/// Is `s` this word, once its ASCII letters are in lower case?
pub fn same_lowered(s: &str, word: &str) -> (r: bool)
    ensures
        r == (lowered(s@) == word@),
{
    let cs: Vec<char> = chars_of(s);
    let ws: Vec<char> = chars_of(word);
    if cs.len() != ws.len() {
        assert(lowered(s@).len() != word@.len());
        return false;
    }
    let mut i: usize = 0;
    while i < cs.len()
        invariant
            cs@ == s@,
            ws@ == word@,
            cs.len() == ws.len(),
            i <= cs.len(),
            forall|j: int| 0 <= j < i ==> lower(#[trigger] s@[j]) == word@[j],
        decreases cs.len() - i,
    {
        let c: char = cs[i];
        let l: char = if 'A' <= c && c <= 'Z' {
            (c as u8 + 32) as char
        } else {
            c
        };
        if l != ws[i] {
            assert(lowered(s@)[i as int] == lower(s@[i as int]));
            return false;
        }
        i += 1;
    }
    assert(lowered(s@) =~= word@);
    true
}

/// The parts, one behind the other.
pub open spec fn glued(parts: Seq<Seq<char>>) -> Seq<char>
    decreases parts.len(),
{
    if parts.len() == 0 {
        Seq::empty()
    } else {
        glued(parts.drop_last()) + parts.last()
    }
}

/// The texts that a sequence of string slices holds.
pub open spec fn slices(v: Seq<&str>) -> Seq<Seq<char>> {
    v.map_values(|s: &str| s@)
}

/// The parts, one behind the other.
pub fn glue(parts: &[&str]) -> (r: String)
    ensures
        r@ == glued(slices(parts@)),
{
    let mut r: String = String::new();
    let mut i: usize = 0;
    let ghost all = slices(parts@);
    assert(all.take(0) =~= Seq::empty());
    while i < parts.len()
        invariant
            i <= parts.len(),
            all == slices(parts@),
            r@ == glued(all.take(i as int)),
        decreases parts.len() - i,
    {
        proof {
            assert(all.take(i + 1).drop_last() =~= all.take(i as int));
            assert(all.take(i + 1).last() == parts@[i as int]@);
        }
        r.append(parts[i]);
        i += 1;
    }
    assert(all.take(i as int) =~= all);
    r
}

/// `String::push` of std: appends one character.
pub assume_specification[ String::push ](s: &mut String, c: char)
    ensures
        final(s)@ == old(s)@.push(c),
;

/// Is `c` an ASCII letter in lower case, or a digit?
pub open spec fn is_slug_char(c: char) -> bool {
    'a' <= c <= 'z' || '0' <= c <= '9'
}

/// The letters and digits of `s`, in lower case, with one dash for each run of
/// anything else behind them.
pub open spec fn dashed(s: Seq<char>) -> Seq<char>
    decreases s.len(),
{
    if s.len() == 0 {
        Seq::empty()
    } else {
        let before = dashed(s.drop_last());
        let c = lower(s.last());
        if is_slug_char(c) {
            before.push(c)
        } else if before.len() > 0 && before.last() != '-' {
            before.push('-')
        } else {
            before
        }
    }
}

/// A text as part of a file or branch name: its letters and digits, in lower
/// case, with a dash for whatever stands between them.
pub open spec fn slug(s: Seq<char>) -> Seq<char> {
    let d = dashed(s);
    if d.len() > 0 && d.last() == '-' {
        d.drop_last()
    } else {
        d
    }
}

/// A text as part of a file or branch name.
pub fn slugify(s: &str) -> (r: String)
    ensures
        r@ == slug(s@),
{
    let cs: Vec<char> = chars_of(s);
    let mut r: String = String::new();
    let mut dash: bool = false;
    let mut len: usize = 0;
    let mut i: usize = 0;
    assert(s@.take(0) =~= Seq::empty());
    while i < cs.len()
        invariant
            cs@ == s@,
            i <= cs.len(),
            len <= i,
            r@ == dashed(s@.take(i as int)),
            len == r@.len(),
            dash == (r@.len() > 0 && r@.last() == '-'),
        decreases cs.len() - i,
    {
        proof {
            assert(s@.take(i + 1).drop_last() =~= s@.take(i as int));
            assert(s@.take(i + 1).last() == s@[i as int]);
        }
        let c: char = cs[i];
        let l: char = if 'A' <= c && c <= 'Z' {
            (c as u8 + 32) as char
        } else {
            c
        };
        if ('a' <= l && l <= 'z') || ('0' <= l && l <= '9') {
            r.push(l);
            dash = false;
            len += 1;
        } else if len > 0 && !dash {
            r.push('-');
            dash = true;
            len += 1;
        }
        i += 1;
    }
    assert(s@.take(i as int) =~= s@);
    if dash {
        let short: String = r.as_str().substring_char(0, len - 1).to_owned();
        assert(short@ =~= r@.drop_last());
        short
    } else {
        r
    }
}

/// A slug holds letters, digits and dashes only.
pub proof fn lemma_slug_chars(s: Seq<char>, i: int)
    requires
        0 <= i < slug(s).len(),
    ensures
        is_slug_char(slug(s)[i]) || slug(s)[i] == '-',
{
    lemma_dashed_chars(s, i);
}

proof fn lemma_dashed_chars(s: Seq<char>, i: int)
    requires
        0 <= i < dashed(s).len(),
    ensures
        is_slug_char(dashed(s)[i]) || dashed(s)[i] == '-',
    decreases s.len(),
{
    if i < dashed(s.drop_last()).len() {
        lemma_dashed_chars(s.drop_last(), i);
    }
}

/// Two numbers with one numeral are one number.
pub proof fn lemma_decimal_injective(a: int, b: int)
    requires
        decimal(a) == decimal(b),
    ensures
        a == b,
{
    lemma_decimal_shape(a);
    lemma_decimal_shape(b);
    if a < 0 {
        assert(decimal(b)[0] == '-');
        assert(b < 0);
        assert(decimal(a).skip(1) =~= decimal_nat((-a) as nat));
        assert(decimal(b).skip(1) =~= decimal_nat((-b) as nat));
        lemma_numeral_of_number((-a) as nat);
        lemma_numeral_of_number((-b) as nat);
    } else {
        assert(is_digit(decimal(a)[0]));
        assert(b >= 0);
        lemma_numeral_of_number(a as nat);
        lemma_numeral_of_number(b as nat);
    }
}

/// A numeral has no dash but the sign in front of it.
pub proof fn lemma_decimal_shape(n: int)
    ensures
        decimal(n).len() > 0,
        n < 0 ==> decimal(n)[0] == '-' && decimal(n).len() > 1,
        forall|i: int|
            (if n < 0 {
                1int
            } else {
                0int
            }) <= i < decimal(n).len() ==> is_digit(#[trigger] decimal(n)[i]),
{
    if n < 0 {
        let m = (-n) as nat;
        lemma_numeral_of_number(m);
        assert forall|i: int| 1 <= i < decimal(n).len() implies is_digit(#[trigger] decimal(n)[i]) by {
            assert(decimal(n)[i] == decimal_nat(m)[i - 1]);
        }
    } else {
        lemma_numeral_of_number(n as nat);
    }
}

/// Is all of it white space?
pub open spec fn all_white(s: Seq<char>) -> bool {
    forall|i: int| 0 <= i < s.len() ==> is_white(#[trigger] s[i])
}

/// Is none of it white space?
pub open spec fn no_white(s: Seq<char>) -> bool {
    forall|i: int| 0 <= i < s.len() ==> !is_white(#[trigger] s[i])
}

/// Blanks, tabs and the ends of lines are white space; what is printed in ASCII is not,
/// nor is anything below the tab.
pub proof fn blanks_are_white_and_print_is_not(c: char)
    ensures
        c == ' ' || c == '\t' || c == '\n' || c == '\r' ==> is_white(c),
        '!' <= c <= '~' ==> !is_white(c),
        c < '\t' ==> !is_white(c),
{
}

/// What stands between white space, and neither begins nor ends with it, is what
/// trimming leaves.
pub proof fn trimming_takes_the_white_space_round_it(a: Seq<char>, t: Seq<char>, b: Seq<char>)
    requires
        all_white(a),
        all_white(b),
        t.len() > 0 ==> !is_white(t[0]) && !is_white(t[t.len() - 1]),
    ensures
        trim(a + t + b) == t,
{
    let s = a + t + b;
    assert forall|i: int| 0 <= i < a.len() implies is_white(#[trigger] s[i]) by {
        assert(s[i] == a[i]);
    }
    if t.len() > 0 {
        lemma_trim_start_skips(s, a.len() as int);
        let u = s.skip(a.len() as int);
        assert(u =~= t + b);
        assert(u[0] == t[0]);
        assert(trim_start(s) == u);
        assert forall|i: int| t.len() <= i < u.len() implies is_white(#[trigger] u[i]) by {
            assert(u[i] == b[i - t.len()]);
        }
        lemma_trim_end_drops(u, t.len() as int);
        assert(u.take(t.len() as int) =~= t);
        assert(t.last() == t[t.len() - 1]);
    } else {
        assert forall|i: int| 0 <= i < s.len() implies is_white(#[trigger] s[i]) by {
            if i >= a.len() {
                assert(s[i] == b[i - a.len()]);
            }
        }
        lemma_trim_start_skips(s, s.len() as int);
        assert(s.skip(s.len() as int) =~= Seq::empty());
        assert(trim(s) =~= t);
    }
}

/// Trimming leaves something exactly where there is a character that is not white space.
pub proof fn trimming_leaves_what_is_not_white(s: Seq<char>)
    ensures
        trim(s).len() > 0 <==> exists|i: int| 0 <= i < s.len() && !is_white(#[trigger] s[i]),
        trim(s).len() > 0 ==> !is_white(trim(s)[0]) && !is_white(trim(s).last()),
        has(s, trim(s)),
{
    let (a, b) = lemma_trim_cuts(s);
    let t = trim(s);
    assert(s =~= a + t + b);
    assert(stands_at(s, a.len() as int, t)) by {
        assert(s.subrange(a.len() as int, (a.len() + t.len()) as int) =~= t);
    }
    if t.len() > 0 {
        assert(s[a.len() as int] == t[0]);
    } else {
        assert forall|i: int| 0 <= i < s.len() implies is_white(#[trigger] s[i]) by {
            if i < a.len() {
                assert(s[i] == a[i]);
            } else {
                assert(s[i] == b[i - a.len()]);
            }
        }
    }
}

proof fn lemma_trim_cuts(s: Seq<char>) -> (r: (Seq<char>, Seq<char>))
    ensures
        s == r.0 + trim(s) + r.1,
        all_white(r.0),
        all_white(r.1),
        trim(s).len() > 0 ==> !is_white(trim(s)[0]) && !is_white(trim(s).last()),
    decreases s.len(),
{
    if s.len() > 0 && is_white(s[0]) {
        let (a, b) = lemma_trim_cuts(s.drop_first());
        let front = seq![s[0]] + a;
        assert(s =~= seq![s[0]] + s.drop_first());
        assert(trim(s) == trim(s.drop_first()));
        assert(s =~= front + trim(s) + b);
        assert forall|i: int| 0 <= i < front.len() implies is_white(#[trigger] front[i]) by {
            if i > 0 {
                assert(front[i] == a[i - 1]);
            }
        }
        (front, b)
    } else {
        let b = lemma_trim_end_cuts(s);
        assert(s =~= Seq::<char>::empty() + trim(s) + b);
        if trim(s).len() > 0 {
            assert(trim(s)[0] == s[0]);
        }
        (Seq::empty(), b)
    }
}

proof fn lemma_trim_end_cuts(s: Seq<char>) -> (b: Seq<char>)
    ensures
        s == trim_end(s) + b,
        all_white(b),
        trim_end(s).len() > 0 ==> !is_white(trim_end(s).last()),
    decreases s.len(),
{
    if s.len() > 0 && is_white(s.last()) {
        let b = lemma_trim_end_cuts(s.drop_last());
        let back = b.push(s.last());
        assert(s =~= s.drop_last().push(s.last()));
        assert(s =~= trim_end(s) + back);
        back
    } else {
        assert(s =~= trim_end(s) + Seq::<char>::empty());
        Seq::empty()
    }
}

/// White space at the end adds no word; and what stands behind white space, with none in
/// it, is the next word.
pub proof fn words_stand_between_white_space(s: Seq<char>, gap: char, w: Seq<char>)
    requires
        is_white(gap),
        no_white(w),
    ensures
        words(s.push(gap)) == words(s),
        w.len() > 0 ==> words(s.push(gap) + w) == words(s).push(w),
        w.len() > 0 ==> words(w) == seq![w],
    decreases w.len(),
{
    assert(s.push(gap).drop_last() =~= s);
    if w.len() > 0 {
        let v = w.drop_last();
        let whole = s.push(gap) + w;
        assert(whole.drop_last() =~= s.push(gap) + v);
        assert(whole.last() == w.last());
        assert(w[w.len() - 1] == w.last());
        assert forall|i: int| 0 <= i < v.len() implies !is_white(#[trigger] v[i]) by {
            assert(v[i] == w[i]);
        }
        words_stand_between_white_space(s, gap, v);
        if v.len() == 0 {
            assert(s.push(gap) + v =~= s.push(gap));
            assert(whole[whole.len() - 2] == gap);
            assert(w =~= seq![w.last()]);
            assert(words(v) =~= Seq::empty());
        } else {
            assert(whole[whole.len() - 2] == v.last());
            assert(v[v.len() - 1] == v.last());
            assert(w[w.len() - 2] == v.last());
            assert(v.push(w.last()) =~= w);
            assert(words(s).push(v).drop_last() =~= words(s));
            assert(words(w) =~= seq![w]);
        }
    }
}

/// White space at the front adds no word.
pub proof fn leading_white_space_is_no_word(a: Seq<char>, s: Seq<char>)
    requires
        all_white(a),
    ensures
        words(a + s) == words(s),
    decreases s.len(),
{
    if s.len() == 0 {
        lemma_white_has_no_words(a);
        assert(a + s =~= a);
    } else {
        let v = s.drop_last();
        leading_white_space_is_no_word(a, v);
        let whole = a + s;
        assert(whole.drop_last() =~= a + v);
        assert(whole.last() == s.last());
        if v.len() == 0 {
            if a.len() > 0 {
                assert(whole[whole.len() - 2] == a[a.len() - 1]);
            }
        } else {
            assert(whole[whole.len() - 2] == s[s.len() - 2]);
        }
    }
}

proof fn lemma_white_has_no_words(a: Seq<char>)
    requires
        all_white(a),
    ensures
        words(a) == Seq::<Seq<char>>::empty(),
    decreases a.len(),
{
    if a.len() > 0 {
        assert(is_white(a[a.len() - 1]));
        assert forall|i: int| 0 <= i < a.len() - 1 implies is_white(#[trigger] a.drop_last()[i]) by {
            assert(a.drop_last()[i] == a[i]);
        }
        lemma_white_has_no_words(a.drop_last());
    }
}

proof fn lemma_words_trailing(s: Seq<char>, b: Seq<char>)
    requires
        all_white(b),
    ensures
        words(s + b) == words(s),
    decreases b.len(),
{
    if b.len() == 0 {
        assert(s + b =~= s);
    } else {
        assert(is_white(b[b.len() - 1]));
        assert forall|i: int| 0 <= i < b.len() - 1 implies is_white(#[trigger] b.drop_last()[i]) by {
            assert(b.drop_last()[i] == b[i]);
        }
        lemma_words_trailing(s, b.drop_last());
        assert((s + b).drop_last() =~= s + b.drop_last());
    }
}

/// Two words with white space between them, and perhaps round them, are two words.
pub proof fn two_words_are_read(
    a: Seq<char>,
    x: Seq<char>,
    gap: Seq<char>,
    y: Seq<char>,
    b: Seq<char>,
)
    requires
        all_white(a),
        all_white(gap),
        all_white(b),
        gap.len() > 0,
        no_white(x),
        no_white(y),
        x.len() > 0,
        y.len() > 0,
    ensures
        words(a + x + gap + y + b) == seq![x, y],
{
    let g = gap.last();
    assert(g == gap[gap.len() - 1]);
    let most = gap.drop_last();
    assert forall|i: int| 0 <= i < most.len() implies is_white(#[trigger] most[i]) by {
        assert(most[i] == gap[i]);
    }
    words_stand_between_white_space(x, g, x);
    lemma_words_trailing(x, most);
    words_stand_between_white_space(x + most, g, y);
    let s = (x + most).push(g) + y;
    assert(s =~= x + gap + y);
    lemma_words_trailing(s, b);
    leading_white_space_is_no_word(a, s + b);
    assert(a + (s + b) =~= a + x + gap + y + b);
    assert(words(s) =~= seq![x, y]);
}

/// A line with its end in front of a text is the first of its lines. A carriage return
/// in front of the newline belongs to the end of the line.
pub proof fn lines_end_with_a_newline(line: Seq<char>, rest: Seq<char>)
    requires
        !line.contains('\n'),
        line.len() > 0 ==> line.last() != '\r',
    ensures
        lines(line.push('\n') + rest) == seq![line] + lines(rest),
        lines(line.push('\r').push('\n') + rest) == seq![line] + lines(rest),
        line.len() > 0 ==> lines(line) == seq![line],
        lines(Seq::<char>::empty()) == Seq::<Seq<char>>::empty(),
{
    lemma_first_line(line, rest);
    let with_cr = line.push('\r');
    assert(!with_cr.contains('\n')) by {
        assert forall|i: int| 0 <= i < with_cr.len() implies with_cr[i] != '\n' by {
            if i < line.len() {
                assert(with_cr[i] == line[i]);
            }
        }
    }
    lemma_first_line(with_cr, rest);
    assert(with_cr.drop_last() =~= line);
    lemma_split_on_absent(line, '\n');
    assert(seq![line].drop_last() =~= Seq::<Seq<char>>::empty());
    assert(lines(line) =~= if line.len() > 0 {
        seq![line]
    } else {
        Seq::empty()
    });
    let none = Seq::<char>::empty();
    assert(split_on(none, '\n') =~= seq![none]);
    assert(lines(none) =~= Seq::empty());
}

proof fn lemma_first_line(line: Seq<char>, rest: Seq<char>)
    requires
        !line.contains('\n'),
    ensures
        lines(line.push('\n') + rest) == seq![strip_cr(line)] + lines(rest),
{
    lemma_split_on_absent(line, '\n');
    lemma_split_on_concat(line, '\n', rest);
    lemma_split_on_nonempty(rest, '\n');
    let after = split_on(rest, '\n');
    let pieces = seq![line] + after;
    assert(pieces.last() == after.last());
    assert(pieces.drop_last() =~= seq![line] + after.drop_last());
    assert(lines(line.push('\n') + rest) =~= seq![strip_cr(line)] + lines(rest));
}

/// What stands behind the last separator, and holds none, is what is behind it.
pub proof fn the_last_piece_is_behind_the_separator(a: Seq<char>, c: char, b: Seq<char>)
    requires
        !b.contains(c),
    ensures
        after_last(a.push(c) + b, c) == b,
        after_last(b, c) == b,
{
    lemma_split_on_concat(a, c, b);
    lemma_split_on_absent(b, c);
    lemma_split_on_nonempty(a, c);
}

/// Taking a part from the back takes every one that stands there, and nothing else.
pub proof fn every_part_at_the_back_goes(s: Seq<char>, part: Seq<char>)
    requires
        part.len() > 0,
    ensures
        strip_backs(s + part, part) == strip_backs(s, part),
        !part.is_suffix_of(s) ==> strip_backs(s, part) == s,
        strip_backs(s, part).is_prefix_of(s),
        !part.is_suffix_of(strip_backs(s, part)),
    decreases s.len(),
{
    let whole = s + part;
    assert(whole.subrange(whole.len() - part.len(), whole.len() as int) =~= part);
    assert(whole.take(whole.len() - part.len()) =~= s);
    if part.is_suffix_of(s) {
        let before = s.take(s.len() - part.len());
        every_part_at_the_back_goes(before, part);
        assert(strip_backs(s, part) =~= s.take(strip_backs(s, part).len() as int)) by {
            let r = strip_backs(before, part);
            assert(r =~= before.take(r.len() as int));
        }
    } else {
        assert(s =~= s.take(s.len() as int));
    }
}

/// Taking a part from the front takes every one that stands there, and nothing else.
pub proof fn every_part_at_the_front_goes(s: Seq<char>, part: Seq<char>)
    requires
        part.len() > 0,
    ensures
        strip_fronts(part + s, part) == strip_fronts(s, part),
        !part.is_prefix_of(s) ==> strip_fronts(s, part) == s,
        !part.is_prefix_of(strip_fronts(s, part)),
    decreases s.len(),
{
    let whole = part + s;
    assert(whole.subrange(0, part.len() as int) =~= part);
    assert(whole.skip(part.len() as int) =~= s);
    if part.is_prefix_of(s) {
        every_part_at_the_front_goes(s.skip(part.len() as int), part);
    }
}

/// A numeral's value grows tenfold with each digit behind it, and by the digit; and it is
/// more than nothing exactly where a digit is not a zero.
pub proof fn numerals_are_decimal(s: Seq<char>, d: char)
    requires
        forall|i: int| 0 <= i < s.len() ==> '0' <= #[trigger] s[i] <= '9',
        '0' <= d <= '9',
    ensures
        digits_value(s.push(d)) == digits_value(s) * 10 + (d as int - '0' as int),
        digits_value(Seq::<char>::empty()) == 0,
        s.len() > 0 <==> is_numeral(s),
        digits_value(s) > 0 <==> exists|i: int| 0 <= i < s.len() && #[trigger] s[i] != '0',
    decreases s.len(),
{
    assert(s.push(d).drop_last() =~= s);
    if s.len() > 0 {
        let t = s.drop_last();
        assert(s[s.len() - 1] == s.last());
        assert forall|i: int| 0 <= i < t.len() implies '0' <= #[trigger] t[i] <= '9' by {
            assert(t[i] == s[i]);
        }
        numerals_are_decimal(t, '0');
        assert(s =~= t.push(s.last()));
        if digits_value(t) > 0 {
            let i = choose|i: int| 0 <= i < t.len() && #[trigger] t[i] != '0';
            assert(s[i] != '0');
        } else {
            if exists|i: int| 0 <= i < s.len() && #[trigger] s[i] != '0' {
                let i = choose|i: int| 0 <= i < s.len() && #[trigger] s[i] != '0';
                if i < t.len() {
                    assert(t[i] != '0');
                }
            }
        }
    }
}

/// A number's numeral has as few digits as can be: no zero stands in front of another
/// digit; and a negative one has a minus sign in front of the numeral of its magnitude.
pub proof fn numerals_are_short(n: nat)
    ensures
        n > 0 ==> decimal_nat(n)[0] != '0',
        n == 0 ==> decimal_nat(n) == seq!['0'],
        decimal(n as int) == decimal_nat(n),
        n > 0 ==> decimal(-n) == seq!['-'] + decimal_nat(n),
    decreases n,
{
    if n >= 10 {
        numerals_are_short(n / 10);
        lemma_numeral_of_number(n / 10);
        assert(decimal_nat(n)[0] == decimal_nat(n / 10)[0]);
    }
}

/// Is it a text of small letters and digits?
pub open spec fn is_plain_word(s: Seq<char>) -> bool {
    forall|i: int| 0 <= i < s.len() ==> 'a' <= #[trigger] s[i] <= 'z' || '0' <= s[i] <= '9'
}

/// Does it hold no letter or digit?
pub open spec fn is_filler(s: Seq<char>) -> bool {
    forall|i: int|
        0 <= i < s.len() ==> !('a' <= #[trigger] s[i] <= 'z') && !('A' <= s[i] <= 'Z') && !('0'
            <= s[i] <= '9')
}

/// In lower case, a capital letter is the small one, and anything else is as it is; case
/// makes no difference to a slug.
pub proof fn case_makes_no_difference(s: Seq<char>, t: Seq<char>, c: char)
    requires
        lowered(s) == lowered(t),
    ensures
        'A' <= c <= 'Z' ==> lower(c) as int == c as int + 32,
        !('A' <= c <= 'Z') ==> lower(c) == c,
        slug(s) == slug(t),
    decreases s.len(),
{
    lemma_dashed_lowered(s, t);
}

proof fn lemma_dashed_lowered(s: Seq<char>, t: Seq<char>)
    requires
        lowered(s) == lowered(t),
    ensures
        dashed(s) == dashed(t),
    decreases s.len(),
{
    assert(lowered(s).len() == s.len() && lowered(t).len() == t.len());
    if s.len() > 0 {
        let n = s.len() - 1;
        assert(lowered(s)[n] == lower(s[n]) && lowered(t)[n] == lower(t[n]));
        assert(lowered(s.drop_last()) =~= lowered(t.drop_last())) by {
            assert(lowered(s.drop_last()) =~= lowered(s).drop_last());
            assert(lowered(t.drop_last()) =~= lowered(t).drop_last());
        }
        lemma_dashed_lowered(s.drop_last(), t.drop_last());
    }
}

/// The slug of a text of small letters and digits is the text; what holds none of them
/// adds nothing at either end, and between two such texts it is a dash.
pub proof fn slugs_join_words_with_a_dash(
    front: Seq<char>,
    a: Seq<char>,
    gap: Seq<char>,
    b: Seq<char>,
    back: Seq<char>,
)
    requires
        is_filler(front),
        is_plain_word(a),
        is_filler(gap),
        is_plain_word(b),
        is_filler(back),
        a.len() > 0,
        b.len() > 0,
        gap.len() > 0,
    ensures
        slug(front + a + back) == a,
        slug(front + a + gap + b + back) == a + seq!['-'] + b,
        slug(front) == Seq::<char>::empty(),
{
    let none = Seq::<char>::empty();
    assert(dashed(none) =~= none);
    lemma_dashed_filler(none, front);
    assert(none + front =~= front);
    lemma_dashed_word(front, a);
    assert(none + a =~= a);
    assert(dashed(front + a) == a);
    assert(a[a.len() - 1] == a.last());
    lemma_dashed_filler(front + a, back);
    assert(slug(front + a + back) =~= a);
    lemma_dashed_filler(front + a, gap);
    lemma_dashed_word(front + a + gap, b);
    let both = a.push('-') + b;
    assert(both =~= a + seq!['-'] + b);
    assert(both.last() == b[b.len() - 1]);
    lemma_dashed_filler(front + a + gap + b, back);
    assert(slug(front + a + gap + b + back) =~= both);
}

proof fn lemma_dashed_filler(s: Seq<char>, gap: Seq<char>)
    requires
        is_filler(gap),
    ensures
        dashed(s + gap) == if gap.len() > 0 && dashed(s).len() > 0 && dashed(s).last() != '-' {
            dashed(s).push('-')
        } else {
            dashed(s)
        },
    decreases gap.len(),
{
    if gap.len() == 0 {
        assert(s + gap =~= s);
    } else {
        let v = gap.drop_last();
        assert(gap[gap.len() - 1] == gap.last());
        assert forall|i: int| 0 <= i < v.len() implies !('a' <= #[trigger] v[i] <= 'z') && !('A'
            <= v[i] <= 'Z') && !('0' <= v[i] <= '9') by {
            assert(v[i] == gap[i]);
        }
        lemma_dashed_filler(s, v);
        assert((s + gap).drop_last() =~= s + v);
    }
}

proof fn lemma_dashed_word(s: Seq<char>, w: Seq<char>)
    requires
        is_plain_word(w),
    ensures
        dashed(s + w) == dashed(s) + w,
    decreases w.len(),
{
    if w.len() == 0 {
        assert(s + w =~= s);
        assert(dashed(s) + w =~= dashed(s));
    } else {
        let v = w.drop_last();
        assert(w[w.len() - 1] == w.last());
        assert forall|i: int| 0 <= i < v.len() implies 'a' <= #[trigger] v[i] <= 'z' || '0' <= v[i]
            <= '9' by {
            assert(v[i] == w[i]);
        }
        lemma_dashed_word(s, v);
        assert((s + w).drop_last() =~= s + v);
        assert(dashed(s) + w =~= (dashed(s) + v).push(w.last()));
    }
}

/// A text is made of its parts in their order: one more part stands behind them all.
pub proof fn glueing_adds_at_the_end(parts: Seq<Seq<char>>, more: Seq<char>)
    ensures
        glued(parts.push(more)) == glued(parts) + more,
        glued(Seq::<Seq<char>>::empty()) == Seq::<char>::empty(),
{
    assert(parts.push(more).drop_last() =~= parts);
}

/// Joining puts the separator between each two of the pieces, and nowhere else.
pub proof fn joining_adds_a_separator_and_a_piece(
    pieces: Seq<Seq<char>>,
    c: char,
    more: Seq<char>,
)
    ensures
        join(Seq::<Seq<char>>::empty(), c) == Seq::<char>::empty(),
        join(seq![more], c) == more,
        pieces.len() > 0 ==> join(pieces.push(more), c) == join(pieces, c).push(c) + more,
{
    assert(pieces.push(more).drop_last() =~= pieces);
}

/// A text is cut at its first separator, and then what is behind it is; a text without
/// one is not cut.
pub proof fn cutting_starts_at_the_first_separator(s: Seq<char>, c: char) -> (k: int)
    ensures
        s.contains(c) ==> 0 <= k < s.len() && s[k] == c && !s.take(k).contains(c) && split_on(s, c)
            == seq![s.take(k)] + split_on(s.skip(k + 1), c) && s == s.take(k).push(c) + s.skip(
            k + 1,
        ),
        !s.contains(c) ==> split_on(s, c) == seq![s],
{
    if s.contains(c) {
        let k = lemma_first_index(s, c, 0);
        let a = s.take(k);
        let b = s.skip(k + 1);
        assert(s =~= a.push(c) + b);
        assert(!a.contains(c)) by {
            assert forall|i: int| 0 <= i < a.len() implies a[i] != c by {
                assert(a[i] == s[i]);
            }
        }
        lemma_split_on_concat(a, c, b);
        lemma_split_on_absent(a, c);
        k
    } else {
        lemma_split_on_absent(s, c);
        0
    }
}

proof fn lemma_first_index(s: Seq<char>, c: char, from: int) -> (k: int)
    requires
        0 <= from,
        exists|i: int| from <= i < s.len() && s[i] == c,
        forall|i: int| 0 <= i < from ==> s[i] != c,
    ensures
        from <= k < s.len(),
        s[k] == c,
        forall|i: int| 0 <= i < k ==> s[i] != c,
    decreases s.len() - from,
{
    if s[from] == c {
        from
    } else {
        lemma_first_index(s, c, from + 1)
    }
}

/// Three parts are one behind the other.
pub proof fn three_parts_are_glued(a: Seq<char>, b: Seq<char>, c: Seq<char>)
    ensures
        glued(seq![a, b, c]) == a + b + c,
{
    let none = Seq::<Seq<char>>::empty();
    glueing_adds_at_the_end(none, a);
    glueing_adds_at_the_end(none.push(a), b);
    glueing_adds_at_the_end(none.push(a).push(b), c);
    assert(none.push(a).push(b).push(c) =~= seq![a, b, c]);
    assert(Seq::<char>::empty() + a =~= a);
}

/// Four parts are one behind the other.
pub proof fn four_parts_are_glued(a: Seq<char>, b: Seq<char>, c: Seq<char>, d: Seq<char>)
    ensures
        glued(seq![a, b, c, d]) == a + b + c + d,
{
    three_parts_are_glued(a, b, c);
    glueing_adds_at_the_end(seq![a, b, c], d);
    assert(seq![a, b, c].push(d) =~= seq![a, b, c, d]);
}

/// Seven parts are one behind the other.
pub proof fn seven_parts_are_glued(
    a: Seq<char>,
    b: Seq<char>,
    c: Seq<char>,
    d: Seq<char>,
    e: Seq<char>,
    f: Seq<char>,
    g: Seq<char>,
)
    ensures
        glued(seq![a, b, c, d, e, f, g]) == a + b + c + d + e + f + g,
{
    let four = seq![a, b, c, d];
    four_parts_are_glued(a, b, c, d);
    glueing_adds_at_the_end(four, e);
    glueing_adds_at_the_end(four.push(e), f);
    glueing_adds_at_the_end(four.push(e).push(f), g);
    assert(four.push(e).push(f).push(g) =~= seq![a, b, c, d, e, f, g]);
}

/// White space is the tab, the line ends and the feeds, the space, the next-line character
/// and the spaces and separators of other scripts, by their numbers; nothing else is.
pub proof fn these_characters_are_white(c: char)
    ensures
        is_white(c) <==> {
            let n = c as u32;
            ||| 9 <= n <= 13
            ||| n == 32
            ||| n == 133
            ||| n == 160
            ||| n == 5760
            ||| 8192 <= n <= 8202
            ||| n == 8232
            ||| n == 8233
            ||| n == 8239
            ||| n == 8287
            ||| n == 12288
        },
{
}

/// A text has what stands anywhere in it, and nothing else: there has to be a place from
/// which on the characters are the same.
pub proof fn a_text_has_what_stands_in_it(
    a: Seq<char>,
    part: Seq<char>,
    b: Seq<char>,
    s: Seq<char>,
)
    ensures
        has(a + part + b, part),
        has(s, part) ==> exists|i: int|
            #![trigger s.skip(i)]
            0 <= i && i + part.len() <= s.len() && forall|k: int|
                0 <= k < part.len() ==> s[i + k] == #[trigger] part[k],
{
    let all = a + part + b;
    assert(all.subrange(a.len() as int, (a.len() + part.len()) as int) =~= part);
    assert(stands_at(all, a.len() as int, part));
    if has(s, part) {
        let i = choose|i: int| #[trigger] stands_at(s, i, part);
        assert forall|k: int| 0 <= k < part.len() implies s[i + k] == #[trigger] part[k] by {
            assert(s.subrange(i, i + part.len())[k] == s[i + k]);
        }
        assert(s.skip(i).len() == s.len() - i);
    }
}

} // verus!
