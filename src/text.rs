//! Character-level helpers: whitespace, trimming, line splitting and the
//! grouping of raw lines into displayed paragraphs.
use vstd::prelude::*;

verus! {

/// Unicode `White_Space`: the characters that `\s` and `str::trim` treat as blank.
pub open spec fn is_space(c: char) -> bool {
    let u = c as u32;
    (9 <= u && u <= 13) || u == 32 || u == 0x85 || u == 0xA0 || u == 0x1680 || (0x2000 <= u && u
        <= 0x200A) || u == 0x2028 || u == 0x2029 || u == 0x202F || u == 0x205F || u == 0x3000
}

/// Whether `c` is whitespace (see `is_space`).
pub fn space(c: char) -> (r: bool)
    ensures
        r == is_space(c),
{
    let u = c as u32;
    (9 <= u && u <= 13) || u == 32 || u == 0x85 || u == 0xA0 || u == 0x1680 || (0x2000 <= u && u
        <= 0x200A) || u == 0x2028 || u == 0x2029 || u == 0x202F || u == 0x205F || u == 0x3000
}

/// `s` without its leading whitespace.
pub open spec fn trim_start(s: Seq<char>) -> Seq<char>
    decreases s.len(),
{
    if s.len() > 0 && is_space(s[0]) {
        trim_start(s.drop_first())
    } else {
        s
    }
}

/// `s` without its trailing whitespace.
pub open spec fn trim_end(s: Seq<char>) -> Seq<char>
    decreases s.len(),
{
    if s.len() > 0 && is_space(s.last()) {
        trim_end(s.drop_last())
    } else {
        s
    }
}

/// `s` without its leading and trailing whitespace.
pub open spec fn trim(s: Seq<char>) -> Seq<char> {
    trim_end(trim_start(s))
}

/// Whether `s` holds a character that is not whitespace.
pub open spec fn has_content(s: Seq<char>) -> bool {
    exists|i: int| 0 <= i < s.len() && !is_space(#[trigger] s[i])
}

/// The pieces of `s` between its newline characters (`n` newlines give `n + 1` pieces).
pub open spec fn split_newlines(s: Seq<char>) -> Seq<Seq<char>>
    decreases s.len(),
{
    if s.len() == 0 {
        seq![Seq::empty()]
    } else {
        let p = split_newlines(s.drop_last());
        if s.last() == '\n' {
            p.push(Seq::empty())
        } else {
            p.update(p.len() - 1, p.last().push(s.last()))
        }
    }
}

proof fn lemma_split_nonempty(s: Seq<char>)
    ensures
        split_newlines(s).len() >= 1,
    decreases s.len(),
{
    if s.len() > 0 {
        lemma_split_nonempty(s.drop_last());
    }
}

/// A line that ended in a newline loses one carriage return before it.
pub open spec fn strip_cr(l: Seq<char>) -> Seq<char> {
    if l.len() > 0 && l.last() == '\r' {
        l.drop_last()
    } else {
        l
    }
}

/// The lines of `s`: split at `\n` or `\r\n`; a final line ending adds no empty line.
pub open spec fn lines_of(s: Seq<char>) -> Seq<Seq<char>> {
    let p = split_newlines(s);
    let ended = p.drop_last().map_values(|l: Seq<char>| strip_cr(l));
    if p.last().len() == 0 {
        ended
    } else {
        ended.push(p.last())
    }
}

/// The lines at `i` and `i + 1` (or the line at `i` alone, when it is the last),
/// joined by a newline.
pub open spec fn chunk_text(lines: Seq<Seq<char>>, i: int) -> Seq<char> {
    if i + 1 < lines.len() {
        lines[i] + seq!['\n'] + lines[i + 1]
    } else {
        lines[i]
    }
}

/// Lines grouped two by two, each group joined by a newline and trimmed;
/// groups that are left empty are dropped.
pub open spec fn chunk_paragraphs(lines: Seq<Seq<char>>) -> Seq<Seq<char>>
    decreases lines.len(),
{
    if lines.len() == 0 {
        seq![]
    } else {
        let p = trim(chunk_text(lines, 0));
        let rest = if lines.len() <= 2 {
            seq![]
        } else {
            chunk_paragraphs(lines.subrange(2, lines.len() as int))
        };
        if p.len() == 0 {
            rest
        } else {
            seq![p] + rest
        }
    }
}

/// The paragraphs that a run of plain text is displayed as.
pub open spec fn paragraphs(s: Seq<char>) -> Seq<Seq<char>> {
    chunk_paragraphs(lines_of(s))
}

/// Relies on `str::chars`: the characters of the string, in order.
#[verifier::external_body]
pub(crate) fn chars_of(s: &str) -> (r: Vec<char>)
    ensures
        r@ == s@,
{
    s.chars().collect()
}

/// Relies on `String`'s `FromIterator<&char>`: the string of the given characters.
#[verifier::external_body]
pub(crate) fn string_of(cs: &[char]) -> (r: String)
    ensures
        r@ == cs@,
{
    cs.iter().collect()
}

/// The bounds of `s[lo..hi]` once its surrounding whitespace is removed.
pub fn trim_bounds(s: &[char], lo: usize, hi: usize) -> (r: (usize, usize))
    requires
        lo <= hi <= s@.len(),
    ensures
        lo <= r.0 <= r.1 <= hi,
        s@.subrange(r.0 as int, r.1 as int) == trim(s@.subrange(lo as int, hi as int)),
{
    let mut a = lo;
    while a < hi && space(s[a])
        invariant
            lo <= a <= hi <= s@.len(),
            trim_start(s@.subrange(lo as int, hi as int)) == trim_start(
                s@.subrange(a as int, hi as int),
            ),
        decreases hi - a,
    {
        assert(s@.subrange(a as int, hi as int).drop_first() =~= s@.subrange(
            a + 1,
            hi as int,
        ));
        a = a + 1;
    }
    let mut b = hi;
    while b > a && space(s[b - 1])
        invariant
            lo <= a <= b <= hi <= s@.len(),
            trim(s@.subrange(lo as int, hi as int)) == trim_end(s@.subrange(a as int, b as int)),
        decreases b - a,
    {
        assert(s@.subrange(a as int, b as int).drop_last() =~= s@.subrange(a as int, b - 1));
        b = b - 1;
    }
    (a, b)
}

/// `s` with its surrounding whitespace removed.
pub fn trimmed(s: &[char]) -> (r: Vec<char>)
    ensures
        r@ == trim(s@),
{
    let (a, b) = trim_bounds(s, 0, s.len());
    assert(s@.subrange(0, s@.len() as int) =~= s@);
    copy_range(s, a, b)
}

/// A copy of `s[lo..hi]`.
pub fn copy_range(s: &[char], lo: usize, hi: usize) -> (r: Vec<char>)
    requires
        lo <= hi <= s@.len(),
    ensures
        r@ == s@.subrange(lo as int, hi as int),
{
    let mut r: Vec<char> = Vec::new();
    let mut i = lo;
    while i < hi
        invariant
            lo <= i <= hi <= s@.len(),
            r@ == s@.subrange(lo as int, i as int),
        decreases hi - i,
    {
        r.push(s[i]);
        i = i + 1;
        assert(r@ =~= s@.subrange(lo as int, i as int));
    }
    r
}

/// The character sequences held by a list of character vectors.
pub open spec fn views(v: Seq<Vec<char>>) -> Seq<Seq<char>> {
    v.map_values(|l: Vec<char>| l@)
}

/// The lines of `s`, as `str::lines` gives them.
pub fn split_lines(s: &[char]) -> (r: Vec<Vec<char>>)
    ensures
        views(r@) == lines_of(s@),
{
    let mut done: Vec<Vec<char>> = Vec::new();
    let mut cur: Vec<char> = Vec::new();
    let mut i: usize = 0;
    assert(s@.subrange(0, 0) =~= Seq::<char>::empty());
    proof {
        lemma_split_nonempty(s@.subrange(0, 0));
    }
    while i < s.len()
        invariant
            i <= s@.len(),
            split_newlines(s@.subrange(0, i as int)).len() >= 1,
            views(done@) == split_newlines(s@.subrange(0, i as int)).drop_last().map_values(
                |l: Seq<char>| strip_cr(l),
            ),
            cur@ == split_newlines(s@.subrange(0, i as int)).last(),
        decreases s@.len() - i,
    {
        let ghost p = split_newlines(s@.subrange(0, i as int));
        assert(s@.subrange(0, i + 1).drop_last() =~= s@.subrange(0, i as int));
        proof {
            lemma_split_nonempty(s@.subrange(0, i + 1));
        }
        let c = s[i];
        if c == '\n' {
            if cur.len() > 0 && cur[cur.len() - 1] == '\r' {
                cur.pop();
            }
            assert(cur@ == strip_cr(p.last()));
            let ghost d0 = views(done@);
            done.push(cur);
            cur = Vec::new();
            assert(views(done@) =~= d0.push(strip_cr(p.last())));
            assert(p.map_values(|l: Seq<char>| strip_cr(l)) =~= p.drop_last().map_values(
                |l: Seq<char>| strip_cr(l),
            ).push(strip_cr(p.last())));
            assert(p =~= p.push(Seq::empty()).drop_last());
        } else {
            cur.push(c);
            assert(p.update(p.len() - 1, p.last().push(c)).drop_last() =~= p.drop_last());
        }
        i = i + 1;
    }
    assert(s@.subrange(0, s@.len() as int) =~= s@);
    if cur.len() > 0 {
        let ghost d = views(done@);
        done.push(cur);
        assert(views(done@) =~= d.push(split_newlines(s@).last()));
    }
    done
}

/// Lines grouped into displayed paragraphs, as `chunk_paragraphs` describes.
pub fn chunk_lines(lines: &Vec<Vec<char>>) -> (r: Vec<Vec<char>>)
    ensures
        views(r@) == chunk_paragraphs(views(lines@)),
{
    let ghost lv = views(lines@);
    let n = lines.len();
    let mut out: Vec<Vec<char>> = Vec::new();
    let mut i: usize = 0;
    assert(lv.subrange(0, n as int) =~= lv);
    while i < n
        invariant
            n == lines@.len(),
            lv == views(lines@),
            i <= n,
            views(out@) + chunk_paragraphs(lv.subrange(i as int, n as int)) == chunk_paragraphs(lv),
        decreases n - i,
    {
        let ghost rest = lv.subrange(i as int, n as int);
        let mut joined = copy_range(lines[i].as_slice(), 0, lines[i].len());
        assert(lines[i as int]@.subrange(0, lines[i as int]@.len() as int) =~= lines[i as int]@);
        let next: usize;
        if i + 1 < n {
            joined.push('\n');
            let mut j: usize = 0;
            let second = &lines[i + 1];
            let ghost before = joined@;
            while j < second.len()
                invariant
                    j <= second@.len(),
                    joined@ == before + second@.subrange(0, j as int),
                decreases second@.len() - j,
            {
                joined.push(second[j]);
                j = j + 1;
                assert(joined@ =~= before + second@.subrange(0, j as int));
            }
            assert(second@.subrange(0, second@.len() as int) =~= second@);
            next = i + 2;
        } else {
            next = n;
        }
        assert(joined@ == chunk_text(rest, 0));
        let t = trimmed(joined.as_slice());
        let ghost o = views(out@);
        if t.len() > 0 {
            out.push(t);
            assert(views(out@) =~= o + seq![t@]);
        }
        if next < n {
            assert(rest.subrange(2, rest.len() as int) =~= lv.subrange(next as int, n as int));
        } else {
            assert(lv.subrange(next as int, n as int) =~= Seq::<Seq<char>>::empty());
        }
        i = next;
    }
    out
}

/// The paragraphs of a run of plain text.
pub fn paragraphs_of(s: &[char]) -> (r: Vec<Vec<char>>)
    ensures
        views(r@) == paragraphs(s@),
{
    let lines = split_lines(s);
    chunk_lines(&lines)
}

proof fn lemma_trim_start_content(s: Seq<char>)
    requires
        has_content(s),
    ensures
        has_content(trim_start(s)),
    decreases s.len(),
{
    if s.len() > 0 && is_space(s[0]) {
        let i = choose|i: int| 0 <= i < s.len() && !is_space(#[trigger] s[i]);
        assert(s.drop_first()[i - 1] == s[i]);
        lemma_trim_start_content(s.drop_first());
    }
}

proof fn lemma_trim_end_content(s: Seq<char>)
    requires
        has_content(s),
    ensures
        trim_end(s).len() > 0,
    decreases s.len(),
{
    if s.len() > 0 && is_space(s.last()) {
        let i = choose|i: int| 0 <= i < s.len() && !is_space(#[trigger] s[i]);
        assert(s.drop_last()[i] == s[i]);
        lemma_trim_end_content(s.drop_last());
    }
}

/// A text that holds anything but whitespace is not trimmed away.
pub proof fn lemma_trim_keeps_content(s: Seq<char>)
    requires
        has_content(s),
    ensures
        trim(s).len() > 0,
{
    lemma_trim_start_content(s);
    lemma_trim_end_content(trim_start(s));
}

/// Paragraph chunking: a block of `n` lines, each holding more than whitespace,
/// is shown as `ceil(n / 2)` paragraphs, the `k`-th being lines `2k` and `2k + 1`
/// (or line `2k` alone, when it is the last) joined by a newline and trimmed.
pub proof fn lemma_paragraph_chunking(lines: Seq<Seq<char>>)
    requires
        forall|i: int| 0 <= i < lines.len() ==> has_content(#[trigger] lines[i]),
    ensures
        chunk_paragraphs(lines).len() == (lines.len() + 1) / 2,
        forall|k: int|
            0 <= k < chunk_paragraphs(lines).len() ==> #[trigger] chunk_paragraphs(lines)[k]
                == trim(chunk_text(lines, 2 * k)),
    decreases lines.len(),
{
    if lines.len() > 0 {
        let first = chunk_text(lines, 0);
        let i = choose|i: int| 0 <= i < lines[0].len() && !is_space(#[trigger] lines[0][i]);
        assert(first[i] == lines[0][i]);
        lemma_trim_keeps_content(first);
        if lines.len() > 2 {
            let rest = lines.subrange(2, lines.len() as int);
            assert forall|j: int| 0 <= j < rest.len() implies has_content(#[trigger] rest[j]) by {
                assert(rest[j] == lines[j + 2]);
            }
            lemma_paragraph_chunking(rest);
            assert forall|k: int| 1 <= k < chunk_paragraphs(lines).len() implies #[trigger]
                chunk_paragraphs(lines)[k] == trim(chunk_text(lines, 2 * k)) by {
                assert(chunk_paragraphs(rest)[k - 1] == trim(chunk_text(rest, 2 * (k - 1))));
                assert(chunk_text(rest, 2 * (k - 1)) == chunk_text(lines, 2 * k));
            }
        }
    }
}

} // verus!
