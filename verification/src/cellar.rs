//! The cellar: the wines and everything that hangs on them. It is the one
//! place that knows which wines exist, so it is here that a reference to a
//! wine is checked, and here that deleting a wine takes its events, comments
//! and grapes with it.

use vstd::prelude::*;
use vstd::utf8::{decode_utf8, valid_utf8};
use crate::clock::{date_of, now, parse_date, parsed_date, CalendarDate, TimeOfDay, Timestamp};
use crate::comments::{
    comment_at, comment_views, comments_of, lemma_newest_first, newest, newest_first, Comment, CommentLog,
    CommentView,
};
use crate::error::{is_error, AppError, ErrorKind};
use crate::form::{form_values, msg_form_not_text, parse_selected, percent_decoded};
use crate::grapes::{grapes_of, has_grape_with_prefix, links_of, replaced, texts, GrapeBook, LinkView};
use crate::imaging::{check_upload_size, process_accepted, process_crop, processed, recropped, StoredImages};
use crate::ledger::{events_of, InventoryEvent, Ledger};
use crate::state::{
    admissible, applied, attempt, commented, deleted, deletion_statements, filtered_overview, has_rows,
    has_wine, imaged,
    is_no_such_wine, lemma_attempt_keeps_valid, lemma_delete_cascades, lemma_deletion_plan,
    lemma_has_wine_push, lemma_outcome_fails_on, lemma_position_unique, lemma_replaced_links_have_wines,
    lemma_replacement_plan, logged, matching_ids,
    movement_of, msg_no_id_left, msg_not_admissible, next_after, outcome, overview, position_of, recorded,
    recorded_on, recut, regraped, replacement_statements, reports, rows, rows_of, submitted, summary_of,
    uploaded, wine_matches, wines_without, with_images, CellarView, Failure, StatementView, SummaryView,
    WineView,
};

verus! {

/// A wine of the collection.
#[derive(Debug)]
pub struct Wine {
    pub id: i64,
    pub name: String,
    pub year: i64,
    /// The stored image, as PNG, once one was uploaded.
    pub image: Option<Vec<u8>>,
    /// The thumbnail derived with the stored image.
    pub thumbnail: Option<Vec<u8>>,
}

/// The content of an optional byte string.
pub open spec fn bytes_view(bytes: Option<Vec<u8>>) -> Option<Seq<u8>> {
    match bytes {
        Some(b) => Some(b@),
        None => None,
    }
}

impl View for Wine {
    type V = WineView;

    open spec fn view(&self) -> WineView {
        WineView {
            id: self.id,
            name: self.name@,
            year: self.year,
            image: bytes_view(self.image),
            thumbnail: bytes_view(self.thumbnail),
        }
    }
}

/// The values that a list of wines holds, in order.
pub open spec fn wine_views(wines: Seq<Wine>) -> Seq<WineView> {
    wines.map_values(|w: Wine| w@)
}

/// One line of the overview of the cellar.
#[derive(Debug)]
pub struct WineSummary {
    pub id: i64,
    pub name: String,
    pub year: i64,
    /// The current stock of the wine.
    pub num_bottles: i64,
    pub thumbnail: Option<Vec<u8>>,
    pub grapes: Vec<String>,
}

impl View for WineSummary {
    type V = SummaryView;

    open spec fn view(&self) -> SummaryView {
        SummaryView {
            id: self.id,
            name: self.name@,
            year: self.year,
            num_bottles: self.num_bottles as int,
            thumbnail: bytes_view(self.thumbnail),
            grapes: texts(self.grapes@),
        }
    }
}

/// The text of a filter, if there is one.
pub open spec fn filter_text(prefix: Option<&str>) -> Option<Seq<char>> {
    match prefix {
        Some(p) => Some(p@),
        None => None,
    }
}

/// The values that a list of summaries holds, in order.
pub open spec fn summary_views(lines: Seq<WineSummary>) -> Seq<SummaryView> {
    lines.map_values(|l: WineSummary| l@)
}

/// Everything that is shown of one wine.
#[derive(Debug)]
pub struct WineDetails {
    pub wine: Wine,
    /// The events of the wine, in the order in which they were recorded.
    pub events: Vec<InventoryEvent>,
    /// The comments on the wine, newest first.
    pub comments: Vec<Comment>,
}

/// How many rows deleting a wine removed.
#[derive(Clone, Copy, Debug, PartialEq, Eq, Structural)]
pub struct Removed {
    /// Whether the wine itself existed and was removed.
    pub wine: bool,
    /// The number of inventory events removed.
    pub events: usize,
    /// The number of comments removed.
    pub comments: usize,
    /// The number of links to grapes removed.
    pub grapes: usize,
}

/// One statement of a transaction on the rows of the cellar.
#[derive(Debug)]
pub enum Statement {
    /// Delete the comments on a wine.
    DeleteComments(i64),
    /// Delete the links of a wine to grapes.
    DeleteGrapes(i64),
    /// Delete the inventory events of a wine.
    DeleteEvents(i64),
    /// Delete a wine. It fails while a row still refers to the wine.
    DeleteWine(i64),
    /// Link a wine to a grape. It fails if the wine does not exist.
    InsertGrape(i64, String),
}

impl View for Statement {
    type V = StatementView;

    open spec fn view(&self) -> StatementView {
        match self {
            Statement::DeleteComments(id) => StatementView::DeleteComments(*id),
            Statement::DeleteGrapes(id) => StatementView::DeleteGrapes(*id),
            Statement::DeleteEvents(id) => StatementView::DeleteEvents(*id),
            Statement::DeleteWine(id) => StatementView::DeleteWine(*id),
            Statement::InsertGrape(id, name) => StatementView::InsertGrape(*id, name@),
        }
    }
}

/// The values that a list of statements holds, in order.
pub open spec fn statement_views(plan: Seq<Statement>) -> Seq<StatementView> {
    plan.map_values(|s: Statement| s@)
}

/// The statements that delete a wine, in the order in which they must be
/// run: whatever refers to the wine first, the wine itself last.
pub fn deletion_plan(wine_id: i64) -> (plan: Vec<Statement>)
    ensures
        statement_views(plan@) == deletion_statements(wine_id),
{
    let mut plan: Vec<Statement> = Vec::new();
    plan.push(Statement::DeleteComments(wine_id));
    plan.push(Statement::DeleteGrapes(wine_id));
    plan.push(Statement::DeleteEvents(wine_id));
    plan.push(Statement::DeleteWine(wine_id));
    proof {
        assert(statement_views(plan@) =~= deletion_statements(wine_id));
    }
    plan
}

/// The statements that replace the grapes of a wine by the grapes named:
/// the links of the wine are deleted, then one is made for each name.
pub fn replacement_plan(wine_id: i64, names: &Vec<String>) -> (plan: Vec<Statement>)
    ensures
        statement_views(plan@) == replacement_statements(wine_id, texts(names@)),
{
    let mut plan: Vec<Statement> = Vec::new();
    plan.push(Statement::DeleteGrapes(wine_id));
    let n = names.len();
    let mut i: usize = 0;
    proof {
        assert(statement_views(plan@) =~= replacement_statements(wine_id, texts(names@).take(0)));
    }
    while i < n
        invariant
            i <= n,
            n == names@.len(),
            statement_views(plan@) == replacement_statements(wine_id, texts(names@).take(i as int)),
        decreases n - i,
    {
        let ghost before = statement_views(plan@);
        plan.push(Statement::InsertGrape(wine_id, names[i].clone()));
        proof {
            assert(statement_views(plan@) =~= before.push(StatementView::InsertGrape(wine_id, names@[i as int]@)));
            assert(replacement_statements(wine_id, texts(names@).take(i + 1)) =~= replacement_statements(
                wine_id,
                texts(names@).take(i as int),
            ).push(StatementView::InsertGrape(wine_id, names@[i as int]@)));
        }
        i = i + 1;
    }
    proof {
        assert(texts(names@).take(n as int) =~= texts(names@));
    }
    plan
}

/// The wines, their events, comments and grapes.
pub struct Cellar {
    wines: Vec<Wine>,
    next_id: i64,
    ledger: Ledger,
    comments: CommentLog,
    grapes: GrapeBook,
}

impl View for Cellar {
    type V = CellarView;

    closed spec fn view(&self) -> CellarView {
        CellarView {
            wines: wine_views(self.wines@),
            next_id: self.next_id,
            events: self.ledger@,
            comments: self.comments@,
            links: self.grapes@,
        }
    }
}

/// A copy of a byte string that may be absent.
fn copy_bytes(bytes: &Option<Vec<u8>>) -> (copy: Option<Vec<u8>>)
    ensures
        bytes_view(copy) == bytes_view(*bytes),
{
    match bytes {
        Some(b) => Some(vstd::slice::slice_to_vec(b.as_slice())),
        None => None,
    }
}

/// A copy of a wine.
fn copy_wine(w: &Wine) -> (copy: Wine)
    ensures
        copy@ == w@,
{
    Wine {
        id: w.id,
        name: w.name.clone(),
        year: w.year,
        image: copy_bytes(&w.image),
        thumbnail: copy_bytes(&w.thumbnail),
    }
}

impl Cellar {
    /// The invariant of the cellar holds.
    pub open spec fn wf(&self) -> bool {
        self@.valid()
    }

    /// An empty cellar. Its first wine will get the id 1.
    pub fn new() -> (cellar: Cellar)
        ensures
            cellar.wf(),
            cellar@ == (CellarView {
                wines: Seq::<WineView>::empty(),
                next_id: 1,
                events: Seq::<InventoryEvent>::empty(),
                comments: Seq::<CommentView>::empty(),
                links: Seq::<LinkView>::empty(),
            }),
    {
        let cellar = Cellar {
            wines: Vec::new(),
            next_id: 1,
            ledger: Ledger::new(),
            comments: CommentLog::new(),
            grapes: GrapeBook::new(),
        };
        proof {
            assert(cellar@.wines =~= Seq::<WineView>::empty());
        }
        cellar
    }

    /// The position of the wine with the given id, if there is one.
    fn find(&self, id: i64) -> (found: Option<usize>)
        requires
            self.wf(),
        ensures
            has_wine(self@.wines, id) ==> (found matches Some(p) && p == position_of(self@.wines, id) && p
                < self.wines@.len() && self.wines@[p as int].id == id),
            !has_wine(self@.wines, id) ==> found is None,
    {
        let n = self.wines.len();
        let mut i: usize = 0;
        while i < n
            invariant
                self.wf(),
                i <= n,
                n == self.wines@.len(),
                forall|k: int| 0 <= k < i ==> (#[trigger] self@.wines[k]).id != id,
            decreases n - i,
        {
            if self.wines[i].id == id {
                proof {
                    assert(self@.wines[i as int].id == id);
                    lemma_position_unique(self@.wines, i as int);
                }
                return Some(i);
            }
            i = i + 1;
        }
        None
    }

    /// The wines, in the order in which they were added.
    pub fn wines(&self) -> (wines: &Vec<Wine>)
        ensures
            wine_views(wines@) == self@.wines,
    {
        &self.wines
    }

    /// Puts a wine that already has an id into the cellar, as when the
    /// cellar is filled from what was stored. An id that a wine of the
    /// cellar bears is refused, and so is the largest id there is.
    pub fn insert_wine(&mut self, wine: Wine) -> (r: Result<(), AppError>)
        requires
            old(self).wf(),
        ensures
            final(self).wf(),
            admissible(old(self)@, wine.id) ==> r is Ok && final(self)@ == (CellarView {
                wines: old(self)@.wines.push(wine@),
                next_id: next_after(old(self)@.next_id, wine.id),
                ..old(self)@
            }),
            !admissible(old(self)@, wine.id) ==> final(self)@ == old(self)@ && (r matches Err(e) && is_error(
                e,
                ErrorKind::InvalidInput,
                msg_not_admissible(wine.id),
            )),
    {
        if wine.id == i64::MAX {
            return Err(AppError::bad_request("wine id out of range"));
        }
        if self.find(wine.id).is_some() {
            return Err(AppError::bad_request("wine id already in use"));
        }
        let ghost before = self@;
        let ghost added = wine@;
        if wine.id >= self.next_id {
            self.next_id = wine.id + 1;
        }
        self.wines.push(wine);
        proof {
            let after = self@;
            assert(after.wines =~= before.wines.push(added));
            assert forall|i: int, j: int| 0 <= i < j < after.wines.len() implies (#[trigger] after.wines[i]).id
                != (#[trigger] after.wines[j]).id by {
                if j == before.wines.len() {
                    assert(after.wines[i] == before.wines[i]);
                }
            }
            assert forall|id: i64| has_wine(before.wines, id) implies has_wine(after.wines, id) by {
                lemma_has_wine_push(before.wines, added, id);
            }
            assert(after.valid());
        }
        Ok(())
    }

    /// A second cellar that holds the same as this one.
    pub fn duplicate(&self) -> (copy: Cellar)
        ensures
            copy@ == self@,
    {
        let mut wines: Vec<Wine> = Vec::new();
        let n = self.wines.len();
        let mut i: usize = 0;
        while i < n
            invariant
                i <= n,
                n == self.wines@.len(),
                wine_views(wines@) =~= self@.wines.take(i as int),
            decreases n - i,
        {
            let ghost before = wine_views(wines@);
            let wine = copy_wine(&self.wines[i]);
            wines.push(wine);
            proof {
                assert(wine_views(wines@) =~= before.push(self.wines@[i as int]@));
                assert(self@.wines.take(i + 1) =~= self@.wines.take(i as int).push(self@.wines[i as int]));
            }
            i = i + 1;
        }
        proof {
            assert(self@.wines.take(n as int) =~= self@.wines);
        }
        Cellar {
            wines,
            next_id: self.next_id,
            ledger: self.ledger.duplicate(),
            comments: self.comments.duplicate(),
            grapes: self.grapes.duplicate(),
        }
    }

    /// Whether an event, a comment or a link refers to the wine.
    fn is_referred_to(&self, id: i64) -> (referred: bool)
        ensures
            referred == has_rows(self@, id),
    {
        let events = self.ledger.events_for(id);
        let comments = self.comments.for_wine(id);
        let grapes = self.grapes.grapes_for(id);
        proof {
            lemma_newest_first(comments_of(self@.comments, id));
            assert(comment_views(comments@).len() == comments@.len());
            assert(texts(grapes@).len() == grapes@.len());
            assert(grapes_of(self@.links, id).len() == links_of(self@.links, id).len());
        }
        events.len() > 0 || comments.len() > 0 || grapes.len() > 0
    }

    /// Runs one statement. A statement that fails changes nothing.
    fn execute(&mut self, statement: &Statement) -> (r: Result<(), AppError>)
        requires
            old(self).wf(),
        ensures
            final(self).wf(),
            match attempt(old(self)@, statement@) {
                Ok(reached) => r is Ok && final(self)@ == reached,
                Err(failure) => final(self)@ == old(self)@ && (r matches Err(e) && reports(e, failure)),
            },
    {
        let ghost before = self@;
        proof {
            lemma_attempt_keeps_valid(before, statement@);
        }
        match statement {
            Statement::DeleteComments(id) => {
                self.comments.remove_wine(*id);
                Ok(())
            },
            Statement::DeleteGrapes(id) => {
                self.grapes.remove_wine(*id);
                Ok(())
            },
            Statement::DeleteEvents(id) => {
                self.ledger.remove_wine(*id);
                Ok(())
            },
            Statement::DeleteWine(id) => {
                if self.is_referred_to(*id) {
                    return Err(AppError::internal("wine is still referred to"));
                }
                match self.find(*id) {
                    Some(p) => {
                        self.wines.remove(p);
                    },
                    None => {},
                }
                proof {
                    assert(self@.wines =~= wines_without(before.wines, *id));
                }
                Ok(())
            },
            Statement::InsertGrape(id, name) => {
                if self.find(*id).is_none() {
                    return Err(AppError::not_found("no such wine"));
                }
                self.grapes.add(*id, name.as_str());
                Ok(())
            },
        }
    }

    /// Runs a list of statements as one transaction: either every statement
    /// succeeds, and the cellar is what they make of it in their order, or
    /// the first failure is reported and the cellar is left exactly as it
    /// was, whatever the statements before the failure had done.
    pub fn transact(&mut self, plan: &Vec<Statement>) -> (r: Result<(), AppError>)
        requires
            old(self).wf(),
        ensures
            final(self).wf(),
            match outcome(old(self)@, statement_views(plan@)) {
                Ok(reached) => r is Ok && final(self)@ == reached,
                Err(failure) => final(self)@ == old(self)@ && (r matches Err(e) && reports(e, failure)),
            },
    {
        let mut work = self.duplicate();
        let ghost all = statement_views(plan@);
        let n = plan.len();
        let mut i: usize = 0;
        proof {
            assert(all.take(0) =~= Seq::<StatementView>::empty());
        }
        while i < n
            invariant
                i <= n,
                n == plan@.len(),
                all == statement_views(plan@),
                self.wf(),
                self@ == old(self)@,
                work.wf(),
                outcome(old(self)@, all.take(i as int)) == Ok::<CellarView, Failure>(work@),
            decreases n - i,
        {
            proof {
                assert(all.take(i + 1).drop_last() =~= all.take(i as int));
                assert(all.take(i + 1).last() == plan@[i as int]@);
            }
            match work.execute(&plan[i]) {
                Ok(()) => {},
                Err(e) => {
                    proof {
                        lemma_outcome_fails_on(old(self)@, all, i + 1);
                    }
                    return Err(e);
                },
            }
            i = i + 1;
        }
        proof {
            assert(all.take(n as int) =~= all);
        }
        *self = work;
        Ok(())
    }

    /// The number of wines.
    pub fn wine_count(&self) -> (n: usize)
        ensures
            n == self@.wines.len(),
    {
        self.wines.len()
    }

    /// Whether there is a wine with the given id.
    pub fn contains_wine(&self, id: i64) -> (found: bool)
        requires
            self.wf(),
        ensures
            found == has_wine(self@.wines, id),
    {
        self.find(id).is_some()
    }

    /// Adds a wine with a name and a vintage year. It gets the next id and
    /// starts without events, comments, grapes or image.
    pub fn add_wine(&mut self, name: &str, year: i64) -> (r: Result<i64, AppError>)
        requires
            old(self).wf(),
        ensures
            final(self).wf(),
            old(self)@.next_id < i64::MAX ==> r == Ok::<i64, AppError>(old(self)@.next_id) && final(self)@ == (
            CellarView {
                wines: old(self)@.wines.push(
                    WineView { id: old(self)@.next_id, name: name@, year, image: None, thumbnail: None },
                ),
                next_id: (old(self)@.next_id + 1) as i64,
                ..old(self)@
            }),
            old(self)@.next_id == i64::MAX ==> final(self)@ == old(self)@ && (r matches Err(e) && is_error(
                e,
                ErrorKind::Internal,
                msg_no_id_left(),
            )),
    {
        if self.next_id == i64::MAX {
            return Err(AppError::internal("no wine id left"));
        }
        let id = self.next_id;
        let ghost before = self@;
        let wine = Wine { id, name: name.to_owned(), year, image: None, thumbnail: None };
        let ghost added = wine@;
        self.wines.push(wine);
        self.next_id = id + 1;
        proof {
            assert(self@.wines =~= before.wines.push(added));
            assert forall|k: int| 0 <= k < self@.events.len() implies has_wine(
                self@.wines,
                (#[trigger] self@.events[k]).wine_id,
            ) by {
                lemma_has_wine_push(before.wines, added, before.events[k].wine_id);
            }
            assert forall|k: int| 0 <= k < self@.comments.len() implies has_wine(
                self@.wines,
                (#[trigger] self@.comments[k]).wine_id,
            ) by {
                lemma_has_wine_push(before.wines, added, before.comments[k].wine_id);
            }
            assert forall|k: int| 0 <= k < self@.links.len() implies has_wine(
                self@.wines,
                (#[trigger] self@.links[k]).wine_id,
            ) by {
                lemma_has_wine_push(before.wines, added, before.links[k].wine_id);
            }
        }
        Ok(id)
    }

    /// The wine with the given id.
    pub fn get_wine(&self, id: i64) -> (r: Result<&Wine, AppError>)
        requires
            self.wf(),
        ensures
            has_wine(self@.wines, id) ==> (r matches Ok(w) && w@ == self@.wines[position_of(self@.wines, id)]
                && w.id == id),
            !has_wine(self@.wines, id) ==> (r matches Err(e) && is_no_such_wine(e)),
    {
        match self.find(id) {
            Some(p) => Ok(&self.wines[p]),
            None => Err(AppError::not_found("no such wine")),
        }
    }

    /// The current stock of a wine: the sum of the deltas of its events. A
    /// wine without events has a stock of 0, and so has an id that no wine
    /// bears: that is no error.
    pub fn current_stock(&self, wine_id: i64) -> (stock: i64)
        requires
            self.wf(),
        ensures
            stock == self@.stock(wine_id),
    {
        self.ledger.current_stock(wine_id)
    }

    /// Appends one event with a signed bottle count to the ledger of a wine
    /// that exists.
    pub fn record_event(&mut self, wine_id: i64, delta: i64, at: Timestamp) -> (r: Result<(), AppError>)
        requires
            old(self).wf(),
        ensures
            final(self).wf(),
            logged(old(self)@, final(self)@, r, InventoryEvent { wine_id, bottles: delta, at }),
    {
        if self.find(wine_id).is_none() {
            return Err(AppError::not_found("no such wine"));
        }
        let ghost before = self@;
        let r = self.ledger.record_event(wine_id, delta, at);
        proof {
            assert(self@ == (CellarView { events: self@.events, ..before }));
            if r is Ok {
                assert forall|k: int| 0 <= k < self@.events.len() implies has_wine(
                    self@.wines,
                    (#[trigger] self@.events[k]).wine_id,
                ) by {
                    if k < before.events.len() {
                        assert(self@.events[k] == before.events[k]);
                    }
                }
            }
            assert(self@.valid());
        }
        r
    }

    /// Records a purchase, or else a consumption, of `bottles` bottles.
    fn move_at(
        &mut self,
        purchase: bool,
        wine_id: i64,
        bottles: i64,
        date: CalendarDate,
        time: TimeOfDay,
    ) -> (r: Result<(), AppError>)
        requires
            old(self).wf(),
        ensures
            final(self).wf(),
            recorded(old(self)@, final(self)@, r, bottles, movement_of(purchase, wine_id, bottles, date, time)),
    {
        if bottles <= 0 {
            return Err(AppError::bad_request("bottle count must be positive"));
        }
        let delta = if purchase {
            bottles
        } else {
            -bottles
        };
        self.record_event(wine_id, delta, Timestamp { date, time })
    }

    /// Records the purchase of `bottles` bottles of a wine on the day
    /// `date`, at the time of day `time`.
    pub fn purchase_at(
        &mut self,
        wine_id: i64,
        bottles: i64,
        date: CalendarDate,
        time: TimeOfDay,
    ) -> (r: Result<(), AppError>)
        requires
            old(self).wf(),
        ensures
            final(self).wf(),
            recorded(old(self)@, final(self)@, r, bottles, movement_of(true, wine_id, bottles, date, time)),
    {
        self.move_at(true, wine_id, bottles, date, time)
    }

    /// Records the consumption of `bottles` bottles of a wine on the day
    /// `date`, at the time of day `time`. The count is given as a positive
    /// number and stored negated.
    pub fn consume_at(
        &mut self,
        wine_id: i64,
        bottles: i64,
        date: CalendarDate,
        time: TimeOfDay,
    ) -> (r: Result<(), AppError>)
        requires
            old(self).wf(),
        ensures
            final(self).wf(),
            recorded(old(self)@, final(self)@, r, bottles, movement_of(false, wine_id, bottles, date, time)),
    {
        self.move_at(false, wine_id, bottles, date, time)
    }

    /// Handles a submitted purchase, or else a consumption: the bottle
    /// count is looked at, the date is read, the time of day is taken from
    /// the server's clock, and the event is recorded.
    fn submit(&mut self, purchase: bool, wine_id: i64, bottles: i64, date_text: &str) -> (r: Result<(), AppError>)
        requires
            old(self).wf(),
        ensures
            final(self).wf(),
            submitted(old(self)@, final(self)@, r, wine_id, bottles, date_text@, purchase),
    {
        if bottles <= 0 {
            return Err(AppError::bad_request("bottle count must be positive"));
        }
        let date = match parse_date(date_text) {
            Ok(d) => d,
            Err(e) => {
                return Err(e);
            },
        };
        let at = Timestamp::compose(date, now());
        let r = self.move_at(purchase, wine_id, bottles, at.date, at.time);
        proof {
            assert(date_of(parsed_date(date_text@)) == Some(date));
            assert(at.time.valid() && recorded(
                old(self)@,
                self@,
                r,
                bottles,
                movement_of(purchase, wine_id, bottles, date, at.time),
            ));
            assert(recorded_on(old(self)@, self@, r, purchase, wine_id, bottles, date));
        }
        r
    }

    /// Handles a submitted purchase: `date_text` is the date as the form
    /// gives it, and the time of day is read from the server's clock.
    pub fn buy_wine(&mut self, wine_id: i64, bottles: i64, date_text: &str) -> (r: Result<(), AppError>)
        requires
            old(self).wf(),
        ensures
            final(self).wf(),
            submitted(old(self)@, final(self)@, r, wine_id, bottles, date_text@, true),
    {
        self.submit(true, wine_id, bottles, date_text)
    }

    /// Handles a submitted consumption: `date_text` is the date as the form
    /// gives it, and the time of day is read from the server's clock.
    pub fn drink_wine(&mut self, wine_id: i64, bottles: i64, date_text: &str) -> (r: Result<(), AppError>)
        requires
            old(self).wf(),
        ensures
            final(self).wf(),
            submitted(old(self)@, final(self)@, r, wine_id, bottles, date_text@, false),
    {
        self.submit(false, wine_id, bottles, date_text)
    }

    /// The events of one wine, in the order in which they were recorded.
    pub fn events_for(&self, wine_id: i64) -> (found: Vec<InventoryEvent>)
        ensures
            found@ == events_of(self@.events, wine_id),
    {
        self.ledger.events_for(wine_id)
    }

    /// Adds a comment on a wine, written at the moment `at`.
    pub fn add_comment_at(&mut self, wine_id: i64, text: &str, at: Timestamp) -> (r: Result<(), AppError>)
        requires
            old(self).wf(),
        ensures
            final(self).wf(),
            commented(old(self)@, final(self)@, r, comment_at(wine_id, text@, at)),
    {
        if self.find(wine_id).is_none() {
            return Err(AppError::not_found("no such wine"));
        }
        let ghost before = self@;
        self.comments.add(wine_id, text, at);
        proof {
            assert(self@.wines == before.wines);
            assert(has_wine(before.wines, wine_id));
            assert forall|k: int| 0 <= k < self@.comments.len() implies has_wine(
                self@.wines,
                (#[trigger] self@.comments[k]).wine_id,
            ) by {
                if k < before.comments.len() {
                    assert(self@.comments[k] == before.comments[k]);
                } else {
                    assert(self@.comments[k] == comment_at(wine_id, text@, at));
                }
            }
            assert(self@ == (CellarView { comments: self@.comments, ..before }));
            assert(self@.valid());
        }
        Ok(())
    }

    /// Adds a comment on a wine, written now by the server's clock.
    pub fn add_comment(&mut self, wine_id: i64, text: &str) -> (r: Result<(), AppError>)
        requires
            old(self).wf(),
        ensures
            final(self).wf(),
            exists|at: Timestamp|
                at.valid() && commented(old(self)@, final(self)@, r, #[trigger] comment_at(wine_id, text@, at)),
    {
        let at = now();
        let r = self.add_comment_at(wine_id, text, at);
        proof {
            assert(at.valid() && commented(old(self)@, self@, r, comment_at(wine_id, text@, at)));
        }
        r
    }

    /// The comments on one wine, newest first.
    pub fn comments_for(&self, wine_id: i64) -> (found: Vec<Comment>)
        ensures
            comment_views(found@) == newest_first(
                comments_of(self@.comments, wine_id),
            ),
    {
        self.comments.for_wine(wine_id)
    }

    /// The most recent comment on one wine, if it has any.
    pub fn latest_comment(&self, wine_id: i64) -> (found: Option<Comment>)
        ensures
            match found {
                Some(c) => newest(comments_of(self@.comments, wine_id)) == Some(c@),
                None => newest(comments_of(self@.comments, wine_id)) is None,
            },
    {
        self.comments.latest(wine_id)
    }

    /// Sets the grapes of a wine to exactly the grapes named: whatever it
    /// had before is dropped. An empty list leaves the wine without grapes.
    pub fn replace_grapes(&mut self, wine_id: i64, names: &Vec<String>) -> (r: Result<(), AppError>)
        requires
            old(self).wf(),
        ensures
            final(self).wf(),
            regraped(old(self)@, final(self)@, r, wine_id, texts(names@)),
            r is Ok ==> outcome(old(self)@, replacement_statements(wine_id, texts(names@))) == Ok::<
                CellarView,
                Failure,
            >(final(self)@),
    {
        if self.find(wine_id).is_none() {
            return Err(AppError::not_found("no such wine"));
        }
        let ghost before = self@;
        self.grapes.replace(wine_id, names);
        proof {
            lemma_replacement_plan(before, wine_id, texts(names@));
            lemma_replaced_links_have_wines(before.wines, before.links, wine_id, texts(names@));
            assert(self@ == (CellarView { links: replaced(before.links, wine_id, texts(names@)), ..before }));
            assert(self@.valid());
        }
        Ok(())
    }

    /// Handles a submitted selection of grapes: the raw body of the form is
    /// decoded and read, and the grapes of the wine are set to the values it
    /// holds. A body that is no text is refused before the wine is looked up.
    pub fn post_wine_grapes(&mut self, wine_id: i64, form: &[u8]) -> (r: Result<(), AppError>)
        requires
            old(self).wf(),
        ensures
            final(self).wf(),
            valid_utf8(percent_decoded(form@)) ==> regraped(
                old(self)@,
                final(self)@,
                r,
                wine_id,
                form_values(decode_utf8(percent_decoded(form@))),
            ),
            !valid_utf8(percent_decoded(form@)) ==> final(self)@ == old(self)@ && (r matches Err(e) && is_error(
                e,
                ErrorKind::InvalidInput,
                msg_form_not_text(),
            )),
    {
        match parse_selected(form) {
            Ok(names) => self.replace_grapes(wine_id, &names),
            Err(e) => Err(e),
        }
    }

    /// The bytes of the stored image of a wine, as they are sent to a
    /// client: no bytes at all for a wine without an image.
    pub fn wine_image(&self, wine_id: i64) -> (r: Result<Vec<u8>, AppError>)
        requires
            self.wf(),
        ensures
            has_wine(self@.wines, wine_id) ==> (r matches Ok(bytes) && bytes@ == match self@.wines[position_of(
                self@.wines,
                wine_id,
            )].image {
                Some(stored) => stored,
                None => Seq::<u8>::empty(),
            }),
            !has_wine(self@.wines, wine_id) ==> (r matches Err(e) && is_no_such_wine(e)),
    {
        match self.image(wine_id) {
            Ok(Some(bytes)) => Ok(bytes),
            Ok(None) => Ok(Vec::new()),
            Err(e) => Err(e),
        }
    }

    /// The names of the grapes of one wine.
    pub fn grapes_for(&self, wine_id: i64) -> (names: Vec<String>)
        ensures
            texts(names@) == grapes_of(self@.links, wine_id),
    {
        self.grapes.grapes_for(wine_id)
    }

    /// Deletes a wine together with all its events, comments and links to
    /// grapes, in one step, and says what was removed. Deleting a wine that
    /// does not exist removes nothing and is no error.
    pub fn delete_wine(&mut self, id: i64) -> (removed: Removed)
        requires
            old(self).wf(),
        ensures
            final(self).wf(),
            final(self)@ == deleted(old(self)@, id),
            outcome(old(self)@, deletion_statements(id)) == Ok::<CellarView, Failure>(final(self)@),
            rows_of(final(self)@, id) == 0,
            rows(final(self)@) == rows(old(self)@) - rows_of(old(self)@, id),
            removed.wine == has_wine(old(self)@.wines, id),
            removed.events == events_of(old(self)@.events, id).len(),
            removed.comments == comments_of(old(self)@.comments, id).len(),
            removed.grapes == links_of(old(self)@.links, id).len(),
    {
        let ghost before = self@;
        let found = self.find(id);
        let comments = self.comments.remove_wine(id);
        let grapes = self.grapes.remove_wine(id);
        let events = self.ledger.remove_wine(id);
        let wine = match found {
            Some(p) => {
                self.wines.remove(p);
                true
            },
            None => false,
        };
        proof {
            lemma_delete_cascades(before, id, id);
            lemma_deletion_plan(before, id);
            assert(self@.wines =~= wines_without(before.wines, id));
            assert(self@ == deleted(before, id));
        }
        Removed { wine, events, comments, grapes }
    }

    /// Stores images with the wine at the position `p`, over whatever
    /// images it had.
    fn store_images(&mut self, p: usize, images: StoredImages)
        requires
            old(self).wf(),
            p < old(self)@.wines.len(),
        ensures
            final(self).wf(),
            final(self)@ == (CellarView {
                wines: old(self)@.wines.update(
                    p as int,
                    with_images(old(self)@.wines[p as int], images.full@, images.thumbnail@),
                ),
                ..old(self)@
            }),
    {
        let ghost before = self@;
        let wine = &self.wines[p];
        let updated = Wine {
            id: wine.id,
            name: wine.name.clone(),
            year: wine.year,
            image: Some(images.full),
            thumbnail: Some(images.thumbnail),
        };
        let ghost updated_view = updated@;
        self.wines.set(p, updated);
        proof {
            let after = self@;
            assert(after.wines =~= before.wines.update(p as int, updated_view));
            assert forall|i: int, j: int| 0 <= i < j < after.wines.len() implies (#[trigger] after.wines[i]).id
                != (#[trigger] after.wines[j]).id by {
                assert(after.wines[i].id == before.wines[i].id);
                assert(after.wines[j].id == before.wines[j].id);
            }
            assert forall|i: int| 0 <= i < after.wines.len() implies (#[trigger] after.wines[i]).id
                < after.next_id by {
                assert(after.wines[i].id == before.wines[i].id);
            }
            assert forall|id: i64| has_wine(before.wines, id) implies has_wine(after.wines, id) by {
                let k = position_of(before.wines, id);
                assert(after.wines[k].id == id);
            }
            assert(after.valid());
        }
    }

    /// Stores an image and its thumbnail with a wine, over whatever images
    /// it had.
    pub fn set_image(&mut self, wine_id: i64, images: StoredImages) -> (r: Result<(), AppError>)
        requires
            old(self).wf(),
        ensures
            final(self).wf(),
            has_wine(old(self)@.wines, wine_id) ==> r is Ok && final(self)@ == imaged(
                old(self)@,
                wine_id,
                images.full@,
                images.thumbnail@,
            ),
            !has_wine(old(self)@.wines, wine_id) ==> final(self)@ == old(self)@ && (r matches Err(e)
                && is_no_such_wine(e)),
    {
        match self.find(wine_id) {
            Some(p) => {
                self.store_images(p, images);
                Ok(())
            },
            None => Err(AppError::not_found("no such wine")),
        }
    }

    /// The stored image of a wine, if it has one.
    pub fn image(&self, wine_id: i64) -> (r: Result<Option<Vec<u8>>, AppError>)
        requires
            self.wf(),
        ensures
            has_wine(self@.wines, wine_id) ==> (r matches Ok(bytes) && bytes_view(bytes)
                == self@.wines[position_of(self@.wines, wine_id)].image),
            !has_wine(self@.wines, wine_id) ==> (r matches Err(e) && is_no_such_wine(e)),
    {
        match self.find(wine_id) {
            Some(p) => Ok(copy_bytes(&self.wines[p].image)),
            None => Err(AppError::not_found("no such wine")),
        }
    }

    /// The thumbnail of a wine, if it has one.
    pub fn thumbnail(&self, wine_id: i64) -> (r: Result<Option<Vec<u8>>, AppError>)
        requires
            self.wf(),
        ensures
            has_wine(self@.wines, wine_id) ==> (r matches Ok(bytes) && bytes_view(bytes)
                == self@.wines[position_of(self@.wines, wine_id)].thumbnail),
            !has_wine(self@.wines, wine_id) ==> (r matches Err(e) && is_no_such_wine(e)),
    {
        match self.find(wine_id) {
            Some(p) => Ok(copy_bytes(&self.wines[p].thumbnail)),
            None => Err(AppError::not_found("no such wine")),
        }
    }

    /// Stores what a pipeline produced with the wine at the position `p`,
    /// or hands on its error.
    fn apply(&mut self, p: usize, wine_id: i64, produced: Result<StoredImages, AppError>) -> (r:
        Result<(), AppError>)
        requires
            old(self).wf(),
            has_wine(old(self)@.wines, wine_id),
            p == position_of(old(self)@.wines, wine_id),
            p < old(self)@.wines.len(),
        ensures
            final(self).wf(),
            applied(old(self)@, final(self)@, r, wine_id, produced),
    {
        match produced {
            Ok(images) => {
                self.store_images(p, images);
                Ok(())
            },
            Err(e) => Err(e),
        }
    }

    /// Handles the upload of an image for a wine. The size guard comes
    /// first, then the wine is looked up, and only then are the bytes
    /// decoded. Whatever fails leaves the stored images as they were.
    pub fn set_wine_image(&mut self, wine_id: i64, raw: &[u8], declared: Option<u64>, device_hint: &str) -> (r:
        Result<(), AppError>)
        requires
            old(self).wf(),
        ensures
            final(self).wf(),
            uploaded(old(self)@, final(self)@, r, wine_id, declared, raw@, device_hint@),
    {
        match check_upload_size(declared, raw.len()) {
            Err(e) => {
                return Err(e);
            },
            Ok(()) => {},
        }
        let p = match self.find(wine_id) {
            Some(p) => p,
            None => {
                return Err(AppError::not_found("no such wine"));
            },
        };
        let produced = process_accepted(raw, device_hint);
        let ghost witness = produced;
        let r = self.apply(p, wine_id, produced);
        proof {
            assert(processed(raw@, device_hint@, witness) && applied(
                old(self)@,
                self@,
                r,
                wine_id,
                witness,
            ));
        }
        r
    }

    /// Crops the stored image of a wine to a rectangle and stores the
    /// result, with a thumbnail made from it, in place of the old images. A
    /// rectangle without area is refused first; then the wine and its image
    /// are looked up. Whatever fails leaves the stored images as they were.
    pub fn crop_image(&mut self, wine_id: i64, x: u32, y: u32, w: u32, h: u32) -> (r: Result<(), AppError>)
        requires
            old(self).wf(),
        ensures
            final(self).wf(),
            r is Err ==> final(self)@ == old(self)@,
            recut(old(self)@, final(self)@, r, wine_id, x, y, w, h),
    {
        if w == 0 || h == 0 {
            return Err(AppError::bad_request("crop size must be non-zero"));
        }
        let p = match self.find(wine_id) {
            Some(p) => p,
            None => {
                return Err(AppError::not_found("no such wine"));
            },
        };
        let ghost stored_view = old(self)@.wines[p as int].image;
        let produced = match &self.wines[p].image {
            Some(stored) => process_crop(stored.as_slice(), x, y, w, h),
            None => {
                return Err(AppError::not_found("wine has no image"));
            },
        };
        let ghost witness = produced;
        let r = self.apply(p, wine_id, produced);
        proof {
            assert(stored_view is Some);
            assert(recropped(stored_view->0, x, y, w, h, witness) && applied(
                old(self)@,
                self@,
                r,
                wine_id,
                witness,
            ));
        }
        r
    }

    /// The line of the overview for the wine at the position `i`.
    fn line_for(&self, i: usize) -> (line: WineSummary)
        requires
            self.wf(),
            i < self@.wines.len(),
        ensures
            line@ == summary_of(self@, self@.wines[i as int]),
    {
        let wine = &self.wines[i];
        WineSummary {
            id: wine.id,
            name: wine.name.clone(),
            year: wine.year,
            num_bottles: self.ledger.current_stock(wine.id),
            thumbnail: copy_bytes(&wine.thumbnail),
            grapes: self.grapes.grapes_for(wine.id),
        }
    }

    /// The overview of the cellar: for each wine its name, year, current
    /// stock, thumbnail and grapes.
    pub fn wine_table(&self) -> (lines: Vec<WineSummary>)
        requires
            self.wf(),
        ensures
            summary_views(lines@) == overview(self@),
    {
        let mut lines: Vec<WineSummary> = Vec::new();
        let n = self.wines.len();
        let mut i: usize = 0;
        while i < n
            invariant
                self.wf(),
                i <= n,
                n == self.wines@.len(),
                summary_views(lines@) =~= overview(self@).take(i as int),
            decreases n - i,
        {
            let line = self.line_for(i);
            let ghost before = summary_views(lines@);
            let ghost added = line@;
            lines.push(line);
            proof {
                assert(summary_views(lines@) =~= before.push(added));
                assert(overview(self@).take(i + 1) =~= overview(self@).take(i as int).push(overview(self@)[i as int]));
            }
            i = i + 1;
        }
        proof {
            assert(overview(self@).take(n as int) =~= overview(self@));
        }
        lines
    }

    /// The overview of the cellar behind a filter on grapes. No filter, or
    /// an empty one, shows every wine; any other shows the wines that have a
    /// grape whose name begins with it, upper and lower case being taken for
    /// the same.
    pub fn wine_table_with_grape(&self, prefix: Option<&str>) -> (lines: Vec<WineSummary>)
        requires
            self.wf(),
        ensures
            summary_views(lines@) == filtered_overview(self@, filter_text(prefix)),
    {
        let wanted = match prefix {
            Some(p) => {
                if p.is_empty() {
                    return self.wine_table();
                }
                p
            },
            None => {
                return self.wine_table();
            },
        };
        let mut lines: Vec<WineSummary> = Vec::new();
        let n = self.wines.len();
        let mut i: usize = 0;
        let ghost matches = |w: WineView| wine_matches(self@, w.id, wanted@);
        let ghost line = |w: WineView| summary_of(self@, w);
        proof {
            reveal(Seq::filter);
            assert(self@.wines.take(0) =~= Seq::<WineView>::empty());
        }
        while i < n
            invariant
                self.wf(),
                i <= n,
                n == self.wines@.len(),
                matches == (|w: WineView| wine_matches(self@, w.id, wanted@)),
                line == (|w: WineView| summary_of(self@, w)),
                summary_views(lines@) =~= self@.wines.take(i as int).filter(matches).map_values(line),
            decreases n - i,
        {
            let grapes = self.grapes.grapes_for(self.wines[i].id);
            proof {
                reveal(Seq::filter);
                assert(self@.wines.take(i + 1).drop_last() =~= self@.wines.take(i as int));
                assert(self@.wines.take(i + 1).last() == self@.wines[i as int]);
            }
            if has_grape_with_prefix(&grapes, wanted) {
                let ghost before = summary_views(lines@);
                let added = self.line_for(i);
                let ghost added_view = added@;
                lines.push(added);
                proof {
                    assert(summary_views(lines@) =~= before.push(added_view));
                }
            }
            i = i + 1;
        }
        proof {
            assert(self@.wines.take(n as int) =~= self@.wines);
        }
        lines
    }

    /// Everything that is shown of one wine: the wine, its events and the
    /// comments on it.
    pub fn wine_information(&self, wine_id: i64) -> (r: Result<WineDetails, AppError>)
        requires
            self.wf(),
        ensures
            has_wine(self@.wines, wine_id) ==> (r matches Ok(d) && d.wine@ == self@.wines[position_of(
                self@.wines,
                wine_id,
            )] && d.events@ == events_of(self@.events, wine_id) && comment_views(d.comments@)
                == newest_first(comments_of(self@.comments, wine_id))),
            !has_wine(self@.wines, wine_id) ==> (r matches Err(e) && is_no_such_wine(e)),
    {
        match self.find(wine_id) {
            Some(p) => Ok(
                WineDetails {
                    wine: copy_wine(&self.wines[p]),
                    events: self.ledger.events_for(wine_id),
                    comments: self.comments.for_wine(wine_id),
                },
            ),
            None => Err(AppError::not_found("no such wine")),
        }
    }

    /// The ids of the wines that have a grape whose name begins with
    /// `prefix`, upper and lower case being taken for the same.
    pub fn wines_with_grape(&self, prefix: &str) -> (ids: Vec<i64>)
        ensures
            ids@ == matching_ids(self@, prefix@),
    {
        let mut ids: Vec<i64> = Vec::new();
        let n = self.wines.len();
        let mut i: usize = 0;
        let ghost matches = |w: WineView| wine_matches(self@, w.id, prefix@);
        proof {
            reveal(Seq::filter);
            assert(self@.wines.take(0) =~= Seq::<WineView>::empty());
        }
        while i < n
            invariant
                i <= n,
                n == self.wines@.len(),
                matches == (|w: WineView| wine_matches(self@, w.id, prefix@)),
                ids@ =~= self@.wines.take(i as int).filter(matches).map_values(|w: WineView| w.id),
            decreases n - i,
        {
            let id = self.wines[i].id;
            let grapes = self.grapes.grapes_for(id);
            proof {
                reveal(Seq::filter);
                assert(self@.wines.take(i + 1).drop_last() =~= self@.wines.take(i as int));
                assert(self@.wines.take(i + 1).last() == self@.wines[i as int]);
            }
            if has_grape_with_prefix(&grapes, prefix) {
                ids.push(id);
            }
            i = i + 1;
        }
        proof {
            assert(self@.wines.take(n as int) =~= self@.wines);
        }
        ids
    }
}

} // verus!
