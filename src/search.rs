//! Literal search over the lines of a document, and word counting.
use vstd::prelude::*;
use crate::buffer::lines_of;
use crate::document::Document;
use crate::text::chars_of;
use vstd::math::min;

verus! {

/// `w` occurs in `l` starting at column `i`.
pub open spec fn occurs_at(l: Seq<char>, w: Seq<char>, i: int) -> bool {
    0 <= i && i + w.len() <= l.len() && l.subrange(i, i + w.len()) == w
}

/// The starts of the occurrences of `w` in `l` from column `from` on, left
/// to right, each search going on after the end of the last match. An empty
/// needle matches at every column, the end of the line included.
pub open spec fn match_starts(l: Seq<char>, w: Seq<char>, from: int) -> Seq<int>
    decreases l.len() + 1 - from,
{
    if from < 0 || from + w.len() > l.len() {
        Seq::empty()
    } else if w.len() == 0 {
        seq![from] + match_starts(l, w, from + 1)
    } else if occurs_at(l, w, from) {
        seq![from] + match_starts(l, w, from + w.len())
    } else {
        match_starts(l, w, from + 1)
    }
}

/// Matches of length `wl` in line `k`, from their starts.
pub open spec fn hits_of(starts: Seq<int>, k: int, wl: int) -> Seq<(int, int, int)> {
    starts.map_values(|s: int| (k, s, s + wl))
}

/// The matches in line `k` of `b` as `(line, start, end)`.
pub open spec fn line_hits(b: Seq<Seq<char>>, w: Seq<char>, k: int) -> Seq<(int, int, int)> {
    hits_of(match_starts(b[k], w, 0), k, w.len() as int)
}

/// The matches in the first `k` lines of `b`, line by line.
pub open spec fn hits_upto(b: Seq<Seq<char>>, w: Seq<char>, k: int) -> Seq<(int, int, int)>
    decreases k,
{
    if k <= 0 {
        Seq::empty()
    } else {
        hits_upto(b, w, k - 1) + line_hits(b, w, k - 1)
    }
}

/// The matches of `w` in all of `b`.
pub open spec fn all_hits(b: Seq<Seq<char>>, w: Seq<char>) -> Seq<(int, int, int)> {
    hits_upto(b, w, b.len() as int)
}

pub open spec fn as_ints(v: Seq<(usize, usize, usize)>) -> Seq<(int, int, int)> {
    v.map_values(|t: (usize, usize, usize)| (t.0 as int, t.1 as int, t.2 as int))
}

/// Whether `w` occurs in `l` at column `i`.
fn occurs(l: &Vec<char>, w: &Vec<char>, i: usize) -> (r: bool)
    requires
        i + w@.len() <= l@.len(),
    ensures
        r == occurs_at(l@, w@, i as int),
{
    let n = l.len();
    let mut j: usize = 0;
    while j < w.len()
        invariant
            i + w@.len() <= l@.len(),
            n == l@.len(),
            j <= w@.len(),
            forall|t: int| 0 <= t < j ==> l@[i + t] == w@[t],
        decreases w.len() - j,
    {
        if l[i + j] != w[j] {
            assert(l@.subrange(i as int, i + w@.len())[j as int] != w@[j as int]);
            return false;
        }
        j = j + 1;
    }
    assert(l@.subrange(i as int, i + w@.len()) =~= w@);
    true
}

/// Appends the matches of `w` in `l`, which is line `k`, to `out`.
fn scan_line(l: &Vec<char>, w: &Vec<char>, k: usize, out: &mut Vec<(usize, usize, usize)>)
    ensures
        as_ints(final(out)@) == as_ints(old(out)@) + hits_of(
            match_starts(l@, w@, 0),
            k as int,
            w@.len() as int,
        ),
{
    let wl = w.len();
    if wl == 0 {
        let ghost mut seen: Seq<int> = Seq::empty();
        let mut at: usize = 0;
        while at <= l.len()
            invariant
                w@.len() == 0,
                at <= l@.len() + 1,
                match_starts(l@, w@, 0) == seen + match_starts(l@, w@, at as int),
                as_ints(out@) == as_ints(old(out)@) + hits_of(seen, k as int, 0),
            decreases l@.len() + 1 - at,
        {
            let ghost prev = out@;
            out.push((k, at, at));
            proof {
                let old_seen = seen;
                seen = old_seen.push(at as int);
                assert(seen + match_starts(l@, w@, at + 1) =~= old_seen + (seq![at as int]
                    + match_starts(l@, w@, at + 1)));
                assert(hits_of(seen, k as int, 0) =~= hits_of(old_seen, k as int, 0).push(
                    (k as int, at as int, at as int),
                ));
                assert(as_ints(out@) =~= as_ints(prev).push((k as int, at as int, at as int)));
                assert(as_ints(out@) =~= as_ints(old(out)@) + hits_of(seen, k as int, 0));
            }
            if at == l.len() {
                assert(match_starts(l@, w@, at + 1) =~= Seq::<int>::empty());
                assert(seen + Seq::<int>::empty() =~= seen);
                return ;
            }
            at = at + 1;
        }
        return ;
    }
    let ghost mut found: Seq<int> = Seq::empty();
    let mut from: usize = 0;
    while from <= l.len() && wl <= l.len() - from
        invariant
            wl == w@.len(),
            wl > 0,
            from <= l@.len() + 1,
            match_starts(l@, w@, 0) == found + match_starts(l@, w@, from as int),
            as_ints(out@) == as_ints(old(out)@) + hits_of(found, k as int, wl as int),
        decreases l@.len() + 1 - from,
    {
        if occurs(l, w, from) {
            let ghost prev = out@;
            out.push((k, from, from + wl));
            proof {
                let old_found = found;
                found = old_found.push(from as int);
                assert(seq![from as int] + match_starts(l@, w@, from + wl) == match_starts(
                    l@,
                    w@,
                    from as int,
                ));
                assert(found + match_starts(l@, w@, from + wl) =~= old_found + (seq![from as int]
                    + match_starts(l@, w@, from + wl)));
                assert(as_ints(out@) =~= as_ints(prev).push((k as int, from as int, from + wl)));
                assert(hits_of(found, k as int, wl as int) =~= hits_of(
                    old_found,
                    k as int,
                    wl as int,
                ).push((k as int, from as int, from + wl)));
                assert(as_ints(out@) =~= as_ints(old(out)@) + hits_of(found, k as int, wl as int));
            }
            from = from + wl;
        } else {
            from = from + 1;
        }
    }
    assert(match_starts(l@, w@, from as int) =~= Seq::<int>::empty());
    assert(found + Seq::<int>::empty() =~= found);
}

impl Document {
    /// The occurrences of `word` as `(line, start_col, end_col)`, line by
    /// line and left to right within a line; occurrences that overlap an
    /// earlier match are not reported.
    pub fn find(&self, word: &str) -> (r: Vec<(usize, usize, usize)>)
        ensures
            as_ints(r@) == all_hits(self.lines(), word@),
    {
        let w = chars_of(word);
        let mut out: Vec<(usize, usize, usize)> = Vec::new();
        let mut k: usize = 0;
        while k < self.content.len()
            invariant
                k <= self.content@.len(),
                w@ == word@,
                as_ints(out@) == hits_upto(self.lines(), w@, k as int),
            decreases self.content@.len() - k,
        {
            assert(self.content@[k as int]@ == self.lines()[k as int]);
            scan_line(&self.content[k], &w, k, &mut out);
            k = k + 1;
        }
        out
    }
}

/// Unicode's `White_Space` characters.
pub open spec fn is_space(c: char) -> bool {
    let u = c as u32;
    (0x9 <= u <= 0xD) || u == 0x20 || u == 0x85 || u == 0xA0 || u == 0x1680 || (0x2000 <= u
        <= 0x200A) || u == 0x2028 || u == 0x2029 || u == 0x202F || u == 0x205F || u == 0x3000
}

pub(crate) fn space(c: char) -> (r: bool)
    ensures
        r == is_space(c),
{
    let u = c as u32;
    (0x9 <= u && u <= 0xD) || u == 0x20 || u == 0x85 || u == 0xA0 || u == 0x1680 || (0x2000 <= u
        && u <= 0x200A) || u == 0x2028 || u == 0x2029 || u == 0x202F || u == 0x205F || u == 0x3000
}

/// The words of `l`: its maximal runs of characters that are not white
/// space, in order.
pub open spec fn words(l: Seq<char>) -> Seq<Seq<char>>
    decreases l.len(),
{
    if l.len() == 0 {
        Seq::empty()
    } else {
        let t = words(l.drop_last());
        let c = l.last();
        if is_space(c) {
            t
        } else if l.len() >= 2 && !is_space(l[l.len() - 2]) {
            t.update(t.len() - 1, t.last().push(c))
        } else {
            t.push(seq![c])
        }
    }
}

/// `w` occurs somewhere in `t`.
pub open spec fn contains(t: Seq<char>, w: Seq<char>) -> bool {
    exists|i: int| occurs_at(t, w, i)
}

/// How many of `ts` contain `w`.
pub open spec fn count_containing(ts: Seq<Seq<char>>, w: Seq<char>) -> nat
    decreases ts.len(),
{
    if ts.len() == 0 {
        0
    } else {
        count_containing(ts.drop_last(), w) + if contains(ts.last(), w) {
            1nat
        } else {
            0nat
        }
    }
}

/// How many words of the first `k` lines of `b` contain `w`.
pub open spec fn words_upto(b: Seq<Seq<char>>, w: Seq<char>, k: int) -> nat
    decreases k,
{
    if k <= 0 {
        0
    } else {
        words_upto(b, w, k - 1) + count_containing(words(b[k - 1]), w)
    }
}

/// Whether `w` occurs in `t`.
fn contains_exec(t: &Vec<char>, w: &Vec<char>) -> (r: bool)
    ensures
        r == contains(t@, w@),
{
    let n = t.len();
    let wl = w.len();
    if wl > n {
        return false;
    }
    let mut i: usize = 0;
    while i <= n - wl
        invariant
            n == t@.len(),
            wl == w@.len(),
            wl <= n,
            forall|j: int| 0 <= j < i ==> !occurs_at(t@, w@, j),
        decreases n - wl + 1 - i,
    {
        if occurs(t, w, i) {
            return true;
        }
        if i == n - wl {
            return false;
        }
        i = i + 1;
    }
    false
}

/// The number of words of `l` that contain `w`, added to `count` without
/// passing `u64::MAX`.
fn count_line(l: &Vec<char>, w: &Vec<char>, count: u64) -> (r: u64)
    ensures
        r as int == min(count + count_containing(words(l@), w@), u64::MAX as int),
{
    let mut total = count;
    let mut cur: Vec<char> = Vec::new();
    let mut done: Ghost<Seq<Seq<char>>> = Ghost(Seq::empty());
    let mut i: usize = 0;
    while i < l.len()
        invariant
            i <= l@.len(),
            cur@.len() > 0 ==> words(l@.take(i as int)) == done@.push(cur@),
            cur@.len() == 0 ==> words(l@.take(i as int)) == done@,
            cur@.len() > 0 <==> (i > 0 && !is_space(l@[i - 1])),
            total as int == min(count + count_containing(done@, w@), u64::MAX as int),
        decreases l@.len() - i,
    {
        let c = l[i];
        let ghost prev = l@.take(i as int);
        assert(l@.take(i + 1).drop_last() =~= prev);
        assert(l@.take(i + 1).last() == c);
        assert(i > 0 ==> l@.take(i + 1)[i - 1] == l@[i - 1]);
        if space(c) {
            if cur.len() > 0 {
                let found = contains_exec(&cur, w);
                proof {
                    assert(done@.push(cur@).drop_last() =~= done@);
                }
                if found && total < u64::MAX {
                    total = total + 1;
                }
                done = Ghost(done@.push(cur@));
                cur = Vec::new();
            }
        } else {
            proof {
                if cur@.len() > 0 {
                    assert(prev[i - 1] == l@[i - 1]);
                    assert(done@.push(cur@).update(done@.len() as int, cur@.push(c)) =~= done@.push(
                        cur@.push(c),
                    ));
                } else if i > 0 {
                    assert(prev[i - 1] == l@[i - 1]);
                }
            }
            let ghost old_cur = cur@;
            cur.push(c);
            proof {
                if old_cur.len() == 0 {
                    assert(cur@ =~= seq![c]);
                }
            }
        }
        i = i + 1;
    }
    assert(l@.take(l@.len() as int) =~= l@);
    if cur.len() > 0 {
        let found = contains_exec(&cur, w);
        proof {
            assert(done@.push(cur@).drop_last() =~= done@);
        }
        if found && total < u64::MAX {
            total = total + 1;
        }
    }
    total
}

impl Document {
    /// How many words (runs of characters that are not white space) contain
    /// `word`; the count stops at `u32::MAX`.
    pub fn word_count(&self, word: &str) -> (r: u32)
        ensures
            r as int == min(words_upto(self.lines(), word@, self.lines().len() as int) as int, u32::MAX as int),
    {
        let w = chars_of(word);
        let mut total: u64 = 0;
        let mut k: usize = 0;
        while k < self.content.len()
            invariant
                k <= self.content@.len(),
                w@ == word@,
                total as int == min(words_upto(self.lines(), w@, k as int) as int, u64::MAX as int),
            decreases self.content@.len() - k,
        {
            assert(self.content@[k as int]@ == self.lines()[k as int]);
            total = count_line(&self.content[k], &w, total);
            k = k + 1;
        }
        if total > u32::MAX as u64 {
            u32::MAX
        } else {
            total as u32
        }
    }
}

} // verus!
