use crate::client::{insertions_view, Commit};
use jumprope::JumpRope;
use vstd::prelude::*;

verus! {

#[verifier::external_type_specification]
#[verifier::external_body]
pub struct ExJumpRope(JumpRope);

/// The characters that a rope holds.
pub uninterp spec fn rope_text(r: JumpRope) -> Seq<char>;

/// Relies on `JumpRope::from`: the new rope holds exactly the string's characters.
#[verifier::external_body]
fn rope_from(s: String) -> (r: JumpRope)
    ensures
        rope_text(r) == s@,
{
    JumpRope::from(s)
}

/// Relies on `JumpRope::len_chars`: the length in unicode characters.
#[verifier::external_body]
fn rope_len(r: &JumpRope) -> (n: usize)
    ensures
        n == rope_text(*r).len(),
{
    r.len_chars()
}

/// Relies on `JumpRope::insert`: the contents go in at `pos`, a position past
/// the end being taken as the end.
#[verifier::external_body]
fn rope_insert(r: &mut JumpRope, pos: usize, contents: &str)
    ensures
        rope_text(*final(r)) == insert_at(
            rope_text(*old(r)),
            if pos <= rope_text(*old(r)).len() { pos as int } else { rope_text(*old(r)).len() as int },
            contents@,
        ),
{
    r.insert(pos, contents)
}

/// Relies on `JumpRope::remove`: the span is cut at the end of the rope, and
/// an empty or reversed span changes nothing.
#[verifier::external_body]
fn rope_remove(r: &mut JumpRope, range: std::ops::Range<usize>)
    ensures
        ({
            let t = rope_text(*old(r));
            let end = if range.end <= t.len() { range.end as int } else { t.len() as int };
            rope_text(*final(r)) == if range.start < end {
                delete_span(t, range.start as int, end)
            } else {
                t
            }
        }),
{
    r.remove(range)
}

/// Relies on `JumpRope`'s `Display`: the whole text, in order.
#[verifier::external_body]
fn rope_to_string(r: &JumpRope) -> (s: String)
    ensures
        s@ == rope_text(*r),
{
    r.to_string()
}

/// Relies on `JumpRope::clone`: the copy holds the same text.
#[verifier::external_body]
fn rope_clone(r: &JumpRope) -> (c: JumpRope)
    ensures
        rope_text(c) == rope_text(*r),
{
    r.clone()
}

/// `s` placed into `t` before position `i`.
pub open spec fn insert_at(t: Seq<char>, i: int, s: Seq<char>) -> Seq<char> {
    t.take(i) + s + t.skip(i)
}

/// `t` without the characters in the half-open span `start..end`.
pub open spec fn delete_span(t: Seq<char>, start: int, end: int) -> Seq<char> {
    t.take(start) + t.skip(end)
}

/// An insertion index is valid when it is at most the text's length.
pub open spec fn valid_insertion(t: Seq<char>, index: int) -> bool {
    0 <= index <= t.len()
}

/// A deletion span is valid when it is ordered and ends within the text.
pub open spec fn valid_deletion(t: Seq<char>, range: std::ops::Range<usize>) -> bool {
    range.start <= range.end <= t.len()
}

/// The deletions applied in order, each to the text the earlier ones left;
/// the flag is false when one of them is invalid, and the text is then the
/// one in which it was found invalid.
pub open spec fn apply_deletions(t: Seq<char>, d: Seq<std::ops::Range<usize>>) -> (Seq<char>, bool)
    decreases d.len(),
{
    if d.len() == 0 {
        (t, true)
    } else {
        let (p, ok) = apply_deletions(t, d.drop_last());
        if ok && valid_deletion(p, d.last()) {
            (delete_span(p, d.last().start as int, d.last().end as int), true)
        } else {
            (p, false)
        }
    }
}

/// The insertions applied in order, each to the text the earlier ones left;
/// the flag is false when one of them is invalid, and the text is then the
/// one in which it was found invalid.
pub open spec fn apply_insertions(t: Seq<char>, ins: Seq<(int, Seq<char>)>) -> (Seq<char>, bool)
    decreases ins.len(),
{
    if ins.len() == 0 {
        (t, true)
    } else {
        let (p, ok) = apply_insertions(t, ins.drop_last());
        if ok && valid_insertion(p, ins.last().0) {
            (insert_at(p, ins.last().0, ins.last().1), true)
        } else {
            (p, false)
        }
    }
}

/// A commit applied to `t`: its deletions, then, if they all were valid, its
/// insertions. Edits made before an invalid one stay.
pub open spec fn apply_edits(
    t: Seq<char>,
    deletions: Seq<std::ops::Range<usize>>,
    insertions: Seq<(int, Seq<char>)>,
) -> (Seq<char>, bool) {
    let (p, ok) = apply_deletions(t, deletions);
    if ok {
        apply_insertions(p, insertions)
    } else {
        (p, false)
    }
}

/// Once a deletion is invalid, the later ones change nothing.
proof fn lemma_deletions_stop(t: Seq<char>, d: Seq<std::ops::Range<usize>>, i: int, j: int)
    requires
        0 <= i < j <= d.len(),
        apply_deletions(t, d.take(i)).1,
        !valid_deletion(apply_deletions(t, d.take(i)).0, d[i]),
    ensures
        apply_deletions(t, d.take(j)) == (apply_deletions(t, d.take(i)).0, false),
    decreases j,
{
    if j > i + 1 {
        lemma_deletions_stop(t, d, i, j - 1);
    }
    assert(d.take(j).drop_last() =~= d.take(j - 1));
}

/// Once an insertion is invalid, the later ones change nothing.
proof fn lemma_insertions_stop(t: Seq<char>, ins: Seq<(int, Seq<char>)>, k: int, j: int)
    requires
        0 <= k < j <= ins.len(),
        apply_insertions(t, ins.take(k)).1,
        !valid_insertion(apply_insertions(t, ins.take(k)).0, ins[k].0),
    ensures
        apply_insertions(t, ins.take(j)) == (apply_insertions(t, ins.take(k)).0, false),
    decreases j,
{
    if j > k + 1 {
        lemma_insertions_stop(t, ins, k, j - 1);
    }
    assert(ins.take(j).drop_last() =~= ins.take(j - 1));
}

/// One open, editable, in-memory copy of a file's contents.
pub struct Document {
    pub text: JumpRope,
}

impl View for Document {
    type V = Seq<char>;

    open spec fn view(&self) -> Seq<char> {
        rope_text(self.text)
    }
}

impl Document {
    /// A document holding `value`.
    pub fn from(value: String) -> (d: Document)
        ensures
            d@ == value@,
    {
        Document { text: rope_from(value) }
    }

    /// Length in characters.
    pub fn len(&self) -> (n: usize)
        ensures
            n == self@.len(),
    {
        rope_len(&self.text)
    }

    /// The whole text.
    pub fn to_text(&self) -> (s: String)
        ensures
            s@ == self@,
    {
        rope_to_string(&self.text)
    }

    /// A separate document with the same text.
    pub fn snapshot(&self) -> (d: Document)
        ensures
            d@ == self@,
    {
        Document { text: rope_clone(&self.text) }
    }

    /// Applies the commit's edits (see `apply_edits`). When an edit is
    /// invalid the result is false and the edits before it stay applied.
    pub fn apply_commit(&mut self, commit: &Commit) -> (ok: bool)
        ensures
            (final(self)@, ok) == apply_edits(
                old(self)@,
                commit.deletions@,
                insertions_view(commit.insertions@),
            ),
    {
        let ghost t0 = self@;
        let nd = commit.deletions.len();
        let mut i: usize = 0;
        while i < nd
            invariant
                nd == commit.deletions@.len(),
                t0 == old(self)@,
                i <= nd,
                (self@, true) == apply_deletions(t0, commit.deletions@.take(i as int)),
            decreases nd - i,
        {
            proof {
                assert(commit.deletions@.take(i + 1).drop_last() =~= commit.deletions@.take(i as int));
            }
            let d = &commit.deletions[i];
            let r = std::ops::Range { start: d.start, end: d.end };
            if !self.remove(r) {
                proof {
                    lemma_deletions_stop(t0, commit.deletions@, i as int, nd as int);
                    assert(commit.deletions@.take(nd as int) =~= commit.deletions@);
                }
                return false;
            }
            i = i + 1;
        }
        proof {
            assert(commit.deletions@.take(nd as int) =~= commit.deletions@);
        }
        let ghost t1 = self@;
        let ghost ins = insertions_view(commit.insertions@);
        let ni = commit.insertions.len();
        let mut k: usize = 0;
        while k < ni
            invariant
                ni == commit.insertions@.len(),
                ins == insertions_view(commit.insertions@),
                t0 == old(self)@,
                apply_deletions(t0, commit.deletions@) == (t1, true),
                k <= ni,
                (self@, true) == apply_insertions(t1, ins.take(k as int)),
            decreases ni - k,
        {
            proof {
                assert(ins.take(k + 1).drop_last() =~= ins.take(k as int));
            }
            let entry = &commit.insertions[k];
            if !self.insert(entry.0, entry.1.as_str()) {
                proof {
                    lemma_insertions_stop(t1, ins, k as int, ni as int);
                    assert(ins.take(ni as int) =~= ins);
                }
                return false;
            }
            k = k + 1;
        }
        proof {
            assert(ins.take(ni as int) =~= ins);
        }
        true
    }

    /// Inserts `text` before character `index`; an index past the end is
    /// refused and leaves the document as it was.
    pub fn insert(&mut self, index: usize, text: &str) -> (ok: bool)
        ensures
            ok == valid_insertion(old(self)@, index as int),
            ok ==> final(self)@ == insert_at(old(self)@, index as int, text@),
            !ok ==> final(self)@ == old(self)@,
    {
        let n = rope_len(&self.text);
        if index > n {
            return false;
        }
        rope_insert(&mut self.text, index, text);
        true
    }

    /// Deletes the characters of `range`; a reversed span or one that runs
    /// past the end is refused and leaves the document as it was.
    pub fn remove(&mut self, range: std::ops::Range<usize>) -> (ok: bool)
        ensures
            ok == valid_deletion(old(self)@, range),
            ok ==> final(self)@ == delete_span(old(self)@, range.start as int, range.end as int),
            !ok ==> final(self)@ == old(self)@,
    {
        let n = rope_len(&self.text);
        if range.start > range.end || range.end > n {
            return false;
        }
        if range.start == range.end {
            proof {
                assert(delete_span(self@, range.start as int, range.end as int) =~= self@);
            }
            return true;
        }
        rope_remove(&mut self.text, range);
        true
    }
}

} // verus!
