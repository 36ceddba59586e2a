//! Free-text comments on wines: an append-only log, read newest first.

use vstd::prelude::*;
use crate::clock::{lemma_before_total, lemma_before_transitive, now, Timestamp};

verus! {

/// A comment on a wine. It is never changed once written.
#[derive(Debug)]
pub struct Comment {
    pub wine_id: i64,
    pub text: String,
    pub at: Timestamp,
}

/// What a comment holds, as a mathematical value.
pub struct CommentView {
    pub wine_id: i64,
    pub text: Seq<char>,
    pub at: Timestamp,
}

impl View for Comment {
    type V = CommentView;

    open spec fn view(&self) -> CommentView {
        CommentView { wine_id: self.wine_id, text: self.text@, at: self.at }
    }
}

/// The comment on the wine `wine_id` with the given text, written at `at`.
pub open spec fn comment_at(wine_id: i64, text: Seq<char>, at: Timestamp) -> CommentView {
    CommentView { wine_id, text, at }
}

/// The values that a list of comments holds, in order.
pub open spec fn comment_views(comments: Seq<Comment>) -> Seq<CommentView> {
    comments.map_values(|c: Comment| c@)
}

/// The comments on the wine `wine_id`, in order.
pub open spec fn comments_of(comments: Seq<CommentView>, wine_id: i64) -> Seq<CommentView> {
    comments.filter(|c: CommentView| c.wine_id == wine_id)
}

/// The comments on other wines than `wine_id`, in order.
pub open spec fn comments_without(comments: Seq<CommentView>, wine_id: i64) -> Seq<CommentView> {
    comments.filter(|c: CommentView| c.wine_id != wine_id)
}

/// Whether no comment of the list is followed by a later one.
pub open spec fn is_newest_first(comments: Seq<CommentView>) -> bool {
    forall|i: int, j: int| 0 <= i < j < comments.len() ==> !comments[i].at.before(comments[j].at)
}

/// The place of a comment written at `at` in a list that is read newest
/// first: behind every comment that is not older than it.
pub open spec fn place_of(comments: Seq<CommentView>, at: Timestamp) -> int
    decreases comments.len(),
{
    if comments.len() == 0 {
        0
    } else if comments.last().at.before(at) {
        place_of(comments.drop_last(), at)
    } else {
        comments.len() as int
    }
}

/// The comments ordered newest first. Comments of the same moment keep the
/// order in which they were written.
pub open spec fn newest_first(comments: Seq<CommentView>) -> Seq<CommentView>
    decreases comments.len(),
{
    if comments.len() == 0 {
        comments
    } else {
        let ordered = newest_first(comments.drop_last());
        ordered.insert(place_of(ordered, comments.last().at), comments.last())
    }
}

/// The newest comment of a list, or `None` for an empty list.
pub open spec fn newest(comments: Seq<CommentView>) -> Option<CommentView> {
    if comments.len() == 0 {
        None
    } else {
        Some(newest_first(comments)[0])
    }
}

/// The place of a comment is a position of the list or its end; everything
/// from the place on is older than the comment, and what stands just before
/// the place is not.
pub proof fn lemma_place_of(comments: Seq<CommentView>, at: Timestamp)
    ensures
        0 <= place_of(comments, at) <= comments.len(),
        forall|i: int| place_of(comments, at) <= i < comments.len() ==> comments[i].at.before(at),
        place_of(comments, at) > 0 ==> !comments[place_of(comments, at) - 1].at.before(at),
    decreases comments.len(),
{
    if comments.len() > 0 && comments.last().at.before(at) {
        let rest = comments.drop_last();
        lemma_place_of(rest, at);
        assert forall|i: int| place_of(comments, at) <= i < comments.len() implies comments[i].at.before(
            at,
        ) by {
            if i < rest.len() {
                assert(comments[i] == rest[i]);
            }
        }
        if place_of(comments, at) > 0 {
            assert(comments[place_of(comments, at) - 1] == rest[place_of(rest, at) - 1]);
        }
    }
}

/// Putting a comment at its place keeps a list newest first.
pub proof fn lemma_place_keeps_order(comments: Seq<CommentView>, c: CommentView)
    requires
        is_newest_first(comments),
    ensures
        is_newest_first(comments.insert(place_of(comments, c.at), c)),
{
    let p = place_of(comments, c.at);
    let out = comments.insert(p, c);
    lemma_place_of(comments, c.at);
    assert forall|i: int, j: int| 0 <= i < j < out.len() implies !out[i].at.before(out[j].at) by {
        if j < p {
            assert(out[i] == comments[i] && out[j] == comments[j]);
        } else if j == p {
            // the new comment stands at `j`: nothing before its place is older
            assert(out[i] == comments[i]);
            if i < p - 1 {
                assert(!comments[i].at.before(comments[p - 1].at));
                lemma_before_transitive(c.at, comments[p - 1].at, comments[i].at);
            }
        } else if i == p {
            // the new comment stands at `i`: everything behind its place is older
            assert(out[j] == comments[j - 1]);
            lemma_before_total(c.at, comments[j - 1].at);
        } else if i < p {
            assert(out[i] == comments[i] && out[j] == comments[j - 1]);
        } else {
            assert(out[i] == comments[i - 1] && out[j] == comments[j - 1]);
        }
    }
}

/// Ordering comments newest first gives a list that is newest first and
/// holds the same comments, each as often as before.
pub proof fn lemma_newest_first(comments: Seq<CommentView>)
    ensures
        is_newest_first(newest_first(comments)),
        newest_first(comments).to_multiset() == comments.to_multiset(),
        newest_first(comments).len() == comments.len(),
    decreases comments.len(),
{
    broadcast use vstd::seq_lib::group_to_multiset_ensures;

    if comments.len() > 0 {
        let rest = comments.drop_last();
        let ordered = newest_first(rest);
        lemma_newest_first(rest);
        lemma_place_of(ordered, comments.last().at);
        lemma_place_keeps_order(ordered, comments.last());
        assert(comments =~= rest.push(comments.last()));
        assert(rest.push(comments.last()).to_multiset() == rest.to_multiset().insert(comments.last()));
    }
}

/// Once the comments on a wine are taken out, the wine has none, and every
/// other wine has the comments it had.
pub proof fn lemma_comments_without(comments: Seq<CommentView>, removed: i64, wine_id: i64)
    ensures
        comments_of(comments_without(comments, removed), wine_id) == (if wine_id == removed {
            Seq::<CommentView>::empty()
        } else {
            comments_of(comments, wine_id)
        }),
    decreases comments.len(),
{
    reveal(Seq::filter);
    if comments.len() > 0 {
        lemma_comments_without(comments.drop_last(), removed, wine_id);
        if comments.last().wine_id != removed {
            let kept = comments_without(comments.drop_last(), removed);
            assert(kept.push(comments.last()).drop_last() =~= kept);
        }
    }
}

/// Each comment is on the wine `wine_id` or it is not: the two parts
/// together are as long as the log.
pub proof fn lemma_comments_partition(comments: Seq<CommentView>, wine_id: i64)
    ensures
        comments_of(comments, wine_id).len() + comments_without(comments, wine_id).len() == comments.len(),
    decreases comments.len(),
{
    reveal(Seq::filter);
    if comments.len() > 0 {
        lemma_comments_partition(comments.drop_last(), wine_id);
    }
}

/// The append-only log of the comments on all wines, in the order in which
/// they were written.
pub struct CommentLog {
    entries: Vec<Comment>,
}

impl View for CommentLog {
    type V = Seq<CommentView>;

    closed spec fn view(&self) -> Seq<CommentView> {
        comment_views(self.entries@)
    }
}

/// A copy of a comment.
fn copy_of(c: &Comment) -> (copy: Comment)
    ensures
        copy@ == c@,
{
    Comment { wine_id: c.wine_id, text: c.text.clone(), at: c.at }
}

/// Puts a comment at its place in a list that is read newest first.
fn place(ordered: &mut Vec<Comment>, c: Comment)
    ensures
        comment_views(final(ordered)@) == comment_views(old(ordered)@).insert(
            place_of(comment_views(old(ordered)@), c.at),
            c@,
        ),
{
    let ghost views = comment_views(ordered@);
    let mut p: usize = ordered.len();
    proof {
        assert(views.take(p as int) =~= views);
    }
    while p > 0 && ordered[p - 1].at.precedes(&c.at)
        invariant
            p <= ordered@.len(),
            views == comment_views(ordered@),
            place_of(views, c.at) == place_of(views.take(p as int), c.at),
        decreases p,
    {
        proof {
            assert(views.take(p as int).drop_last() =~= views.take(p - 1));
        }
        p = p - 1;
    }
    proof {
        if p > 0 {
            assert(views.take(p as int).last() == views[p - 1]);
        }
    }
    let ghost c_view = c@;
    ordered.insert(p, c);
    proof {
        assert(comment_views(ordered@) =~= views.insert(p as int, c_view));
    }
}

impl CommentLog {
    /// A log without comments.
    pub fn new() -> (log: CommentLog)
        ensures
            log@ == Seq::<CommentView>::empty(),
    {
        let log = CommentLog { entries: Vec::new() };
        proof {
            assert(log@ =~= Seq::<CommentView>::empty());
        }
        log
    }

    /// The number of comments in the log.
    pub fn len(&self) -> (n: usize)
        ensures
            n == self@.len(),
    {
        self.entries.len()
    }

    /// A second log with the same comments.
    pub fn duplicate(&self) -> (copy: CommentLog)
        ensures
            copy@ == self@,
    {
        let mut entries: Vec<Comment> = Vec::new();
        let n = self.entries.len();
        let mut i: usize = 0;
        while i < n
            invariant
                i <= n,
                n == self.entries@.len(),
                comment_views(entries@) =~= self@.take(i as int),
            decreases n - i,
        {
            let ghost before = comment_views(entries@);
            let c = copy_of(&self.entries[i]);
            entries.push(c);
            proof {
                assert(comment_views(entries@) =~= before.push(self.entries@[i as int]@));
                assert(self@.take(i + 1) =~= self@.take(i as int).push(self@[i as int]));
            }
            i = i + 1;
        }
        proof {
            assert(self@.take(n as int) =~= self@);
        }
        CommentLog { entries }
    }

    /// Appends a comment written at the moment `at`.
    pub fn add(&mut self, wine_id: i64, text: &str, at: Timestamp)
        ensures
            final(self)@ == old(self)@.push(comment_at(wine_id, text@, at)),
    {
        let c = Comment { wine_id, text: text.to_owned(), at };
        self.entries.push(c);
        proof {
            assert(self@ =~= old(self)@.push(comment_at(wine_id, text@, at)));
        }
    }

    /// Appends a comment written now, by the server's clock.
    pub fn add_now(&mut self, wine_id: i64, text: &str)
        ensures
            exists|at: Timestamp|
                at.valid() && final(self)@ == old(self)@.push(#[trigger] comment_at(wine_id, text@, at)),
    {
        let at = now();
        self.add(wine_id, text, at);
        proof {
            assert(self@ == old(self)@.push(comment_at(wine_id, text@, at)));
        }
    }

    /// The comments on one wine, newest first.
    pub fn for_wine(&self, wine_id: i64) -> (found: Vec<Comment>)
        ensures
            comment_views(found@) == newest_first(comments_of(self@, wine_id)),
    {
        let mut found: Vec<Comment> = Vec::new();
        let n = self.entries.len();
        let mut i: usize = 0;
        proof {
            reveal(Seq::filter);
            assert(comment_views(found@) =~= Seq::<CommentView>::empty());
            assert(self@.take(0) =~= Seq::<CommentView>::empty());
        }
        while i < n
            invariant
                i <= n,
                n == self.entries@.len(),
                comment_views(found@) == newest_first(comments_of(self@.take(i as int), wine_id)),
            decreases n - i,
        {
            proof {
                reveal(Seq::filter);
                assert(self@.take(i + 1).drop_last() =~= self@.take(i as int));
                assert(self@.take(i + 1).last() == self.entries@[i as int]@);
            }
            if self.entries[i].wine_id == wine_id {
                let c = copy_of(&self.entries[i]);
                place(&mut found, c);
                proof {
                    let sel = comments_of(self@.take(i + 1), wine_id);
                    assert(sel.drop_last() =~= comments_of(self@.take(i as int), wine_id));
                }
            }
            i = i + 1;
        }
        proof {
            assert(self@.take(n as int) =~= self@);
        }
        found
    }

    /// The most recent comment on one wine, if it has any. It is not
    /// stored: it is found from the log each time.
    pub fn latest(&self, wine_id: i64) -> (found: Option<Comment>)
        ensures
            match found {
                Some(c) => newest(comments_of(self@, wine_id)) == Some(c@),
                None => newest(comments_of(self@, wine_id)) is None,
            },
    {
        let mut ordered = self.for_wine(wine_id);
        proof {
            lemma_newest_first(comments_of(self@, wine_id));
        }
        if ordered.len() == 0 {
            None
        } else {
            Some(ordered.swap_remove(0))
        }
    }

    /// Removes every comment on one wine, as part of deleting the wine, and
    /// says how many there were.
    pub fn remove_wine(&mut self, wine_id: i64) -> (removed: usize)
        ensures
            final(self)@ == comments_without(old(self)@, wine_id),
            removed == comments_of(old(self)@, wine_id).len(),
    {
        let mut kept: Vec<Comment> = Vec::new();
        let mut removed: usize = 0;
        let n = self.entries.len();
        let mut i: usize = 0;
        proof {
            reveal(Seq::filter);
            assert(comment_views(kept@) =~= Seq::<CommentView>::empty());
            assert(self@.take(0) =~= Seq::<CommentView>::empty());
        }
        while i < n
            invariant
                i <= n,
                n == self.entries@.len(),
                comment_views(kept@) == comments_without(self@.take(i as int), wine_id),
                removed == comments_of(self@.take(i as int), wine_id).len(),
                removed <= i,
            decreases n - i,
        {
            proof {
                reveal(Seq::filter);
                assert(self@.take(i + 1).drop_last() =~= self@.take(i as int));
                assert(self@.take(i + 1).last() == self.entries@[i as int]@);
            }
            if self.entries[i].wine_id == wine_id {
                removed = removed + 1;
            } else {
                let c = copy_of(&self.entries[i]);
                let ghost before = comment_views(kept@);
                kept.push(c);
                proof {
                    assert(comment_views(kept@) =~= before.push(c@));
                }
            }
            i = i + 1;
        }
        proof {
            assert(self@.take(n as int) =~= self@);
        }
        self.entries = kept;
        removed
    }
}

} // verus!
