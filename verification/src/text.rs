//! Text as sequences of characters: substring search, replacement, line
//! splitting, trimming and ordering, each with its mathematical meaning.

use vstd::prelude::*;

verus! {

/// `pat` stands in `s` at offset `i`.
pub open spec fn occurs_at(s: Seq<char>, pat: Seq<char>, i: int) -> bool {
    &&& 0 <= i
    &&& i + pat.len() <= s.len()
    &&& s.subrange(i, i + pat.len()) == pat
}

/// `pat` stands somewhere in `s`.
pub open spec fn contains_text(s: Seq<char>, pat: Seq<char>) -> bool {
    exists|i: int| occurs_at(s, pat, i)
}

/// `i` is the least offset at which `pat` stands in `s`.
pub open spec fn first_occurrence(s: Seq<char>, pat: Seq<char>, i: int) -> bool {
    &&& occurs_at(s, pat, i)
    &&& forall|j: int| 0 <= j < i ==> !occurs_at(s, pat, j)
}

/// Whether `s` begins with `pat`.
pub open spec fn starts_with(s: Seq<char>, pat: Seq<char>) -> bool {
    occurs_at(s, pat, 0)
}

/// Whether `s` ends with `pat`.
pub open spec fn ends_with(s: Seq<char>, pat: Seq<char>) -> bool {
    occurs_at(s, pat, s.len() - pat.len())
}

/// `s` with every occurrence of `from` replaced by `to`, scanning from the
/// left and never looking again at text that was already replaced.
/// An empty `from` leaves `s` as it is.
pub open spec fn replace_all(s: Seq<char>, from: Seq<char>, to: Seq<char>) -> Seq<char>
    decreases s.len(),
{
    if from.len() == 0 || s.len() < from.len() {
        s
    } else if occurs_at(s, from, 0) {
        to + replace_all(s.skip(from.len() as int), from, to)
    } else {
        seq![s[0]] + replace_all(s.skip(1), from, to)
    }
}

/// The offset of the first `c` in `s`, or the length of `s` where there is none.
pub open spec fn index_of_char(s: Seq<char>, c: char) -> nat
    decreases s.len(),
{
    if s.len() == 0 {
        0
    } else if s[0] == c {
        0
    } else {
        1 + index_of_char(s.skip(1), c)
    }
}

/// What stands before the first `c` in `s`; all of `s` where there is none.
pub open spec fn head_before(s: Seq<char>, c: char) -> Seq<char> {
    s.take(index_of_char(s, c) as int)
}

/// One line without its terminator: a line feed, or a carriage return and a
/// line feed.
pub open spec fn strip_line_end(piece: Seq<char>) -> Seq<char> {
    if piece.len() > 0 && piece.last() == '\n' {
        let body = piece.drop_last();
        if body.len() > 0 && body.last() == '\r' {
            body.drop_last()
        } else {
            body
        }
    } else {
        piece
    }
}

/// The lines of `s`. A line ends with a line feed; the last line may lack
/// one. Terminators are not part of the lines.
pub open spec fn lines_of(s: Seq<char>) -> Seq<Seq<char>>
    decreases s.len(),
{
    if s.len() == 0 {
        Seq::empty()
    } else {
        let n = index_of_char(s, '\n') as int;
        if n < s.len() {
            seq![strip_line_end(s.take(n + 1))] + lines_of(s.skip(n + 1))
        } else {
            seq![s]
        }
    }
}

/// The number of marks that are set at the front.
pub open spec fn leading(marks: Seq<bool>) -> int
    decreases marks.len(),
{
    if marks.len() > 0 && marks[0] {
        1 + leading(marks.skip(1))
    } else {
        0
    }
}

/// The number of marks that are set at the end.
pub open spec fn trailing(marks: Seq<bool>) -> int
    decreases marks.len(),
{
    if marks.len() > 0 && marks.last() {
        1 + trailing(marks.drop_last())
    } else {
        0
    }
}

/// `s` without the characters at its two ends that are marked. There is
/// one mark for each character.
pub open spec fn trimmed(s: Seq<char>, marks: Seq<bool>) -> Seq<char>
    recommends
        marks.len() == s.len(),
{
    let a = leading(marks);
    if a == s.len() {
        Seq::empty()
    } else {
        s.subrange(a, s.len() - trailing(marks))
    }
}

/// `a` comes before `b`, or equals it, in the order of a dictionary whose
/// alphabet is ordered by code point.
pub open spec fn lex_le(a: Seq<char>, b: Seq<char>) -> bool
    decreases a.len(),
{
    if a.len() == 0 {
        true
    } else if b.len() == 0 {
        false
    } else if a[0] != b[0] {
        (a[0] as int) < (b[0] as int)
    } else {
        lex_le(a.skip(1), b.skip(1))
    }
}

/// The first `c` at or after `from` is found by searching what follows `from`.
pub proof fn lemma_index_of_char_step(s: Seq<char>, c: char, i: int)
    requires
        0 <= i <= s.len(),
        forall|j: int| 0 <= j < i ==> s[j] != c,
    ensures
        index_of_char(s, c) == i + index_of_char(s.skip(i), c),
    decreases i,
{
    if i > 0 {
        assert(s[0] != c);
        assert forall|j: int| 0 <= j < i - 1 implies s.skip(1)[j] != c by {
            assert(s.skip(1)[j] == s[j + 1]);
        }
        lemma_index_of_char_step(s.skip(1), c, i - 1);
        assert(s.skip(1).skip(i - 1) =~= s.skip(i));
    } else {
        assert(s.skip(0) =~= s);
    }
}

/// A run of `n` set marks at the front, followed by a mark that is not set
/// or by the end, is the whole leading run.
pub proof fn lemma_leading_is(marks: Seq<bool>, n: int)
    requires
        0 <= n <= marks.len(),
        forall|j: int| 0 <= j < n ==> marks[j],
        n < marks.len() ==> !marks[n],
    ensures
        leading(marks) == n,
    decreases n,
{
    if n > 0 {
        assert(marks[0]);
        assert forall|j: int| 0 <= j < n - 1 implies marks.skip(1)[j] by {
            assert(marks.skip(1)[j] == marks[j + 1]);
        }
        if n < marks.len() {
            assert(marks.skip(1)[n - 1] == marks[n]);
        }
        lemma_leading_is(marks.skip(1), n - 1);
    }
}

/// A run of `n` set marks at the end, with a mark before it that is not
/// set or with nothing before it, is the whole trailing run.
pub proof fn lemma_trailing_is(marks: Seq<bool>, n: int)
    requires
        0 <= n <= marks.len(),
        forall|j: int| marks.len() - n <= j < marks.len() ==> marks[j],
        n < marks.len() ==> !marks[marks.len() - n - 1],
    ensures
        trailing(marks) == n,
    decreases n,
{
    if n > 0 {
        assert(marks[marks.len() - 1]);
        let t = marks.drop_last();
        assert forall|j: int| t.len() - (n - 1) <= j < t.len() implies t[j] by {
            assert(t[j] == marks[j]);
        }
        if n - 1 < t.len() {
            assert(t[t.len() - (n - 1) - 1] == marks[marks.len() - n - 1]);
        }
        lemma_trailing_is(t, n - 1);
    }
}

/// The order of `lex_le` is total.
pub proof fn lemma_lex_le_total(a: Seq<char>, b: Seq<char>)
    ensures
        lex_le(a, b) || lex_le(b, a),
    decreases a.len(),
{
    if a.len() > 0 && b.len() > 0 {
        if a[0] == b[0] {
            lemma_lex_le_total(a.skip(1), b.skip(1));
        } else {
            assert(a[0] as int != b[0] as int);
        }
    }
}

/// The order of `lex_le` is transitive.
pub proof fn lemma_lex_le_transitive(a: Seq<char>, b: Seq<char>, c: Seq<char>)
    requires
        lex_le(a, b),
        lex_le(b, c),
    ensures
        lex_le(a, c),
    decreases a.len(),
{
    if a.len() > 0 && b.len() > 0 && c.len() > 0 {
        if a[0] == b[0] && b[0] == c[0] {
            lemma_lex_le_transitive(a.skip(1), b.skip(1), c.skip(1));
        }
    }
}

/// `String::push` of std appends one character to the text.
pub assume_specification[ String::push ](s: &mut String, c: char)
    ensures
        final(s)@ == old(s)@.push(c),
;

/// What `str::to_lowercase` of std returns for a text: its lowercase
/// equivalent by the Unicode rules, a function of the text alone.
pub uninterp spec fn lowercase_of(s: Seq<char>) -> Seq<char>;

/// Whether `char::is_whitespace` of std holds of a character: the Unicode
/// property White_Space.
pub uninterp spec fn is_blank(c: char) -> bool;

/// For each character of a text, whether it is white space.
pub open spec fn blank_marks(s: Seq<char>) -> Seq<bool> {
    s.map_values(|c: char| is_blank(c))
}

/// A text without the white space at its two ends.
pub open spec fn trimmed_text(s: Seq<char>) -> Seq<char> {
    trimmed(s, blank_marks(s))
}

/// Calls `str::to_lowercase` of std.
#[verifier::external_body]
pub(crate) fn to_lowercase(s: &str) -> (lower: String)
    ensures
        lower@ == lowercase_of(s@),
{
    s.to_lowercase()
}

/// Calls `char::is_whitespace` of std.
#[verifier::external_body]
pub(crate) fn is_whitespace(c: char) -> (blank: bool)
    ensures
        blank == is_blank(c),
{
    c.is_whitespace()
}

/// The characters of a text, one by one.
pub fn chars_of(s: &str) -> (v: Vec<char>)
    ensures
        v@ == s@,
{
    let mut v: Vec<char> = Vec::new();
    for c in it: s.chars()
        invariant
            v@ == it.seq().take(it.index() as int),
            it.seq() == s@,
    {
        v.push(c);
    }
    v
}

/// The text made of the given characters.
pub fn string_of(v: &Vec<char>) -> (s: String)
    ensures
        s@ == v@,
{
    let mut s = String::new();
    let mut i: usize = 0;
    while i < v.len()
        invariant
            i <= v.len(),
            s@ == v@.take(i as int),
        decreases v.len() - i,
    {
        s.push(v[i]);
        i += 1;
    }
    s
}

/// Appends the characters of `src` to `out`.
pub fn append_chars(out: &mut Vec<char>, src: &Vec<char>)
    ensures
        final(out)@ == old(out)@ + src@,
{
    let mut i: usize = 0;
    while i < src.len()
        invariant
            i <= src.len(),
            out@ == old(out)@ + src@.take(i as int),
        decreases src.len() - i,
    {
        out.push(src[i]);
        i += 1;
    }
}

/// The characters of `s` from `from` up to, not including, `to`.
pub fn slice_chars(s: &Vec<char>, from: usize, to: usize) -> (out: Vec<char>)
    requires
        from <= to <= s.len(),
    ensures
        out@ == s@.subrange(from as int, to as int),
{
    let mut out: Vec<char> = Vec::new();
    let mut i: usize = from;
    while i < to
        invariant
            from <= i <= to <= s.len(),
            out@ == s@.subrange(from as int, i as int),
        decreases to - i,
    {
        out.push(s[i]);
        i += 1;
    }
    out
}

/// Whether two texts hold the same characters.
pub fn same_chars(a: &Vec<char>, b: &Vec<char>) -> (same: bool)
    ensures
        same == (a@ == b@),
{
    if a.len() != b.len() {
        return false;
    }
    let mut i: usize = 0;
    while i < a.len()
        invariant
            i <= a.len(),
            a.len() == b.len(),
            a@.take(i as int) == b@.take(i as int),
        decreases a.len() - i,
    {
        if a[i] != b[i] {
            return false;
        }
        assert(a@.take(i + 1) =~= a@.take(i as int).push(a@[i as int]));
        assert(b@.take(i + 1) =~= b@.take(i as int).push(b@[i as int]));
        i += 1;
    }
    assert(a@ =~= a@.take(a.len() as int));
    assert(b@ =~= b@.take(b.len() as int));
    true
}

/// Whether two texts are the same.
pub fn equal(a: &str, b: &str) -> (same: bool)
    ensures
        same == (a@ == b@),
{
    let av = chars_of(a);
    let bv = chars_of(b);
    same_chars(&av, &bv)
}

/// Whether `pat` stands in `s` at offset `i`.
pub fn matches_at(s: &Vec<char>, pat: &Vec<char>, i: usize) -> (found: bool)
    ensures
        found == occurs_at(s@, pat@, i as int),
{
    if i > s.len() || pat.len() > s.len() - i {
        return false;
    }
    let mut k: usize = 0;
    while k < pat.len()
        invariant
            k <= pat.len(),
            i + pat.len() <= s.len(),
            forall|j: int| 0 <= j < k ==> s@[i + j] == pat@[j],
        decreases pat.len() - k,
    {
        if s[i + k] != pat[k] {
            assert(s@.subrange(i as int, i + pat.len())[k as int] != pat@[k as int]);
            return false;
        }
        k += 1;
    }
    assert(s@.subrange(i as int, i + pat.len()) =~= pat@);
    true
}

/// The least offset at which `pat` stands in `s`.
pub fn find_text(s: &Vec<char>, pat: &Vec<char>) -> (at: Option<usize>)
    ensures
        match at {
            Some(i) => first_occurrence(s@, pat@, i as int),
            None => !contains_text(s@, pat@),
        },
{
    if pat.len() > s.len() {
        return None;
    }
    let last: usize = s.len() - pat.len();
    let mut i: usize = 0;
    while i < last
        invariant
            i <= last,
            last == s.len() - pat.len(),
            forall|j: int| 0 <= j < i ==> !occurs_at(s@, pat@, j),
        decreases last - i,
    {
        if matches_at(s, pat, i) {
            return Some(i);
        }
        i += 1;
    }
    if matches_at(s, pat, last) {
        Some(last)
    } else {
        None
    }
}

/// Whether `pat` stands somewhere in `s`.
pub fn contains(s: &str, pat: &str) -> (found: bool)
    ensures
        found == contains_text(s@, pat@),
{
    let sv = chars_of(s);
    let pv = chars_of(pat);
    find_text(&sv, &pv).is_some()
}

/// Whether `s` begins with `pat`.
pub fn has_prefix(s: &str, pat: &str) -> (found: bool)
    ensures
        found == starts_with(s@, pat@),
{
    let sv = chars_of(s);
    let pv = chars_of(pat);
    matches_at(&sv, &pv, 0)
}

/// Whether `s` ends with `pat`.
pub fn has_suffix(s: &str, pat: &str) -> (found: bool)
    ensures
        found == ends_with(s@, pat@),
{
    let sv = chars_of(s);
    let pv = chars_of(pat);
    if pv.len() > sv.len() {
        return false;
    }
    matches_at(&sv, &pv, sv.len() - pv.len())
}

/// `s` with every occurrence of `from` replaced by `to`.
pub fn replace_chars(s: &Vec<char>, from: &Vec<char>, to: &Vec<char>) -> (out: Vec<char>)
    ensures
        out@ == replace_all(s@, from@, to@),
{
    let mut out: Vec<char> = Vec::new();
    let mut i: usize = 0;
    proof {
        assert(s@.skip(0) =~= s@);
    }
    while i < s.len()
        invariant
            i <= s.len(),
            replace_all(s@, from@, to@) == out@ + replace_all(s@.skip(i as int), from@, to@),
        decreases s.len() - i,
    {
        let ghost rest = s@.skip(i as int);
        let ghost before = out@;
        let hit = from.len() > 0 && matches_at(s, from, i);
        proof {
            if from.len() > 0 && i + from.len() <= s.len() {
                assert(rest.subrange(0, from.len() as int) =~= s@.subrange(
                    i as int,
                    i + from.len(),
                ));
            }
            assert(hit == (from.len() > 0 && occurs_at(rest, from@, 0)));
        }
        if hit {
            append_chars(&mut out, to);
            proof {
                assert(rest.skip(from.len() as int) =~= s@.skip(i + from.len()));
                assert(before + (to@ + replace_all(rest.skip(from.len() as int), from@, to@))
                    =~= out@ + replace_all(rest.skip(from.len() as int), from@, to@));
            }
            i += from.len();
        } else {
            out.push(s[i]);
            proof {
                assert(rest.skip(1) =~= s@.skip(i + 1));
                if from.len() == 0 || rest.len() < from.len() {
                    assert(replace_all(rest, from@, to@) == rest);
                    assert(replace_all(rest.skip(1), from@, to@) == rest.skip(1));
                    assert(rest =~= seq![rest[0]] + rest.skip(1));
                }
                assert(replace_all(rest, from@, to@) == seq![rest[0]] + replace_all(
                    rest.skip(1),
                    from@,
                    to@,
                ));
                assert(before + (seq![rest[0]] + replace_all(rest.skip(1), from@, to@))
                    =~= out@ + replace_all(rest.skip(1), from@, to@));
            }
            i += 1;
        }
    }
    proof {
        assert(s@.skip(s.len() as int) =~= Seq::<char>::empty());
        assert(out@ + Seq::<char>::empty() =~= out@);
    }
    out
}

/// `s` with every occurrence of `from` replaced by `to`.
pub fn replace(s: &str, from: &str, to: &str) -> (out: String)
    ensures
        out@ == replace_all(s@, from@, to@),
{
    let sv = chars_of(s);
    let fv = chars_of(from);
    let tv = chars_of(to);
    let ov = replace_chars(&sv, &fv, &tv);
    string_of(&ov)
}

/// The offset of the first `c` in `s`, or the length of `s` where there is none.
pub fn position_of(s: &Vec<char>, c: char) -> (at: usize)
    ensures
        at == index_of_char(s@, c),
        at <= s.len(),
{
    let mut i: usize = 0;
    while i < s.len() && s[i] != c
        invariant
            i <= s.len(),
            forall|j: int| 0 <= j < i ==> s@[j] != c,
        decreases s.len() - i,
    {
        i += 1;
    }
    proof {
        lemma_index_of_char_step(s@, c, i as int);
        if i < s.len() {
            assert(s@.skip(i as int)[0] == c);
        }
    }
    i
}

/// What stands before the first `sep` in `s`; all of `s` where there is none.
pub fn head(s: &str, sep: char) -> (out: String)
    ensures
        out@ == head_before(s@, sep),
{
    let sv = chars_of(s);
    let n = position_of(&sv, sep);
    let hv = slice_chars(&sv, 0, n);
    string_of(&hv)
}

/// The texts that a vector of character vectors holds.
pub open spec fn views_of(v: Seq<Vec<char>>) -> Seq<Seq<char>> {
    v.map_values(|l: Vec<char>| l@)
}

/// The lines of `s`, without their terminators.
pub fn lines(s: &Vec<char>) -> (out: Vec<Vec<char>>)
    ensures
        views_of(out@) == lines_of(s@),
{
    let mut out: Vec<Vec<char>> = Vec::new();
    let mut start: usize = 0;
    proof {
        assert(s@.skip(0) =~= s@);
        assert(views_of(out@) =~= Seq::<Seq<char>>::empty());
    }
    while start < s.len()
        invariant
            start <= s.len(),
            lines_of(s@) == views_of(out@) + lines_of(s@.skip(start as int)),
        decreases s.len() - start,
    {
        let ghost rest = s@.skip(start as int);
        let ghost before = views_of(out@);
        let mut end: usize = start;
        while end < s.len() && s[end] != '\n'
            invariant
                start <= end <= s.len(),
                forall|j: int| start <= j < end ==> s@[j] != '\n',
            decreases s.len() - end,
        {
            end += 1;
        }
        proof {
            assert forall|j: int| 0 <= j < end - start implies rest[j] != '\n' by {
                assert(rest[j] == s@[start + j]);
            }
            lemma_index_of_char_step(rest, '\n', end - start);
            if end < s.len() {
                assert(rest.skip(end - start)[0] == '\n');
            }
            assert(index_of_char(rest, '\n') == end - start);
        }
        if end < s.len() {
            let stop: usize = if end > start && s[end - 1] == '\r' {
                end - 1
            } else {
                end
            };
            let line = slice_chars(s, start, stop);
            proof {
                let piece = rest.take(end - start + 1);
                assert(piece.last() == '\n');
                assert(piece.drop_last() =~= s@.subrange(start as int, end as int));
                assert(strip_line_end(piece) =~= line@);
                assert(rest.skip(end - start + 1) =~= s@.skip(end + 1));
            }
            out.push(line);
            proof {
                assert(views_of(out@) =~= before.push(line@));
                assert(before + (seq![line@] + lines_of(s@.skip(end + 1))) =~= before.push(line@)
                    + lines_of(s@.skip(end + 1)));
            }
            start = end + 1;
        } else {
            let line = slice_chars(s, start, end);
            proof {
                assert(line@ =~= rest);
                assert(s@.skip(end as int) =~= Seq::<char>::empty());
            }
            out.push(line);
            proof {
                assert(views_of(out@) =~= before.push(line@));
                assert(before + seq![rest] =~= before.push(line@) + Seq::<Seq<char>>::empty());
            }
            start = end;
        }
    }
    proof {
        assert(s@.skip(s.len() as int) =~= Seq::<char>::empty());
        assert(views_of(out@) + Seq::<Seq<char>>::empty() =~= views_of(out@));
    }
    out
}

/// For each character, whether it is white space.
pub fn blanks(s: &Vec<char>) -> (marks: Vec<bool>)
    ensures
        marks@ == blank_marks(s@),
{
    let mut marks: Vec<bool> = Vec::new();
    let mut i: usize = 0;
    while i < s.len()
        invariant
            i <= s.len(),
            marks.len() == i,
            forall|j: int| 0 <= j < i ==> marks[j] == is_blank(s@[j]),
        decreases s.len() - i,
    {
        marks.push(is_whitespace(s[i]));
        i += 1;
    }
    assert(marks@ =~= blank_marks(s@));
    marks
}

/// `s` without the characters at its two ends that are marked.
pub fn trim_marked(s: &Vec<char>, marks: &Vec<bool>) -> (out: Vec<char>)
    requires
        marks.len() == s.len(),
    ensures
        out@ == trimmed(s@, marks@),
{
    let mut a: usize = 0;
    while a < s.len() && marks[a]
        invariant
            a <= s.len(),
            marks.len() == s.len(),
            forall|j: int| 0 <= j < a ==> marks@[j],
        decreases s.len() - a,
    {
        a += 1;
    }
    proof {
        lemma_leading_is(marks@, a as int);
    }
    if a == s.len() {
        return Vec::new();
    }
    let mut b: usize = s.len();
    while b > a && marks[b - 1]
        invariant
            a <= b <= s.len(),
            a < s.len(),
            marks.len() == s.len(),
            !marks@[a as int],
            forall|j: int| b <= j < s.len() ==> marks@[j],
        decreases b,
    {
        b -= 1;
    }
    proof {
        lemma_trailing_is(marks@, s.len() - b);
    }
    slice_chars(s, a, b)
}

/// `s` without the white space at its two ends.
pub fn trim(s: &Vec<char>) -> (out: Vec<char>)
    ensures
        out@ == trimmed_text(s@),
{
    let marks = blanks(s);
    trim_marked(s, &marks)
}

/// Whether `a` comes before `b`, or equals it, in dictionary order.
pub fn le_chars(a: &Vec<char>, b: &Vec<char>) -> (le: bool)
    ensures
        le == lex_le(a@, b@),
{
    let mut i: usize = 0;
    proof {
        assert(a@.skip(0) =~= a@);
        assert(b@.skip(0) =~= b@);
    }
    while i < a.len() && i < b.len()
        invariant
            i <= a.len(),
            i <= b.len(),
            lex_le(a@, b@) == lex_le(a@.skip(i as int), b@.skip(i as int)),
        decreases a.len() - i,
    {
        if a[i] != b[i] {
            return a[i] < b[i];
        }
        proof {
            assert(a@.skip(i as int).skip(1) =~= a@.skip(i + 1));
            assert(b@.skip(i as int).skip(1) =~= b@.skip(i + 1));
        }
        i += 1;
    }
    i == a.len()
}

} // verus!
