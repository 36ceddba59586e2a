//! The content of a cellar as a mathematical value: what is valid, what
//! each operation makes of it, and the laws that hold of the operations.

use vstd::prelude::*;
use crate::clock::{date_of, parsed_date, CalendarDate, TimeOfDay};
use crate::comments::{comments_of, comments_without, lemma_comments_partition, lemma_comments_without, CommentView};
use crate::error::{is_error, AppError, ErrorKind};
use crate::grapes::{
    grapes_of, lemma_links_partition, lemma_links_without, links_for, links_of, links_without, replaced,
    some_grape_starts_with, LinkView,
};
use crate::imaging::{is_size_error, processed, recropped, too_large, StoredImages};
use crate::ledger::{
    all_representable, appended, consumption_of, events_of, events_without, lemma_events_partition,
    lemma_events_without, lemma_stock_push, lemma_stock_without, msg_bottles_not_positive, purchase_of,
    representable, stock_of,
    InventoryEvent,
};
use crate::picture::msg_crop_empty;

verus! {

/// What a wine holds, as a mathematical value.
pub struct WineView {
    pub id: i64,
    pub name: Seq<char>,
    pub year: i64,
    pub image: Option<Seq<u8>>,
    pub thumbnail: Option<Seq<u8>>,
}

/// Whether there is a wine with the given id.
pub open spec fn has_wine(wines: Seq<WineView>, id: i64) -> bool {
    exists|i: int| 0 <= i < wines.len() && (#[trigger] wines[i]).id == id
}

/// The position of the wine with the given id, if there is one.
pub open spec fn position_of(wines: Seq<WineView>, id: i64) -> int {
    choose|i: int| 0 <= i < wines.len() && (#[trigger] wines[i]).id == id
}

/// Whether no two wines of the list share an id.
pub open spec fn distinct_ids(wines: Seq<WineView>) -> bool {
    forall|i: int, j: int| 0 <= i < j < wines.len() ==> (#[trigger] wines[i]).id != (#[trigger] wines[j]).id
}

/// What a cellar holds, as a mathematical value.
pub struct CellarView {
    /// The wines, in the order in which they were added.
    pub wines: Seq<WineView>,
    /// The id that the next wine will get.
    pub next_id: i64,
    /// The ledger of inventory events.
    pub events: Seq<InventoryEvent>,
    /// The log of comments.
    pub comments: Seq<CommentView>,
    /// The relation between wines and grapes.
    pub links: Seq<LinkView>,
}

impl CellarView {
    /// The invariant of a cellar: ids are unique and below the next id;
    /// every event, comment and link belongs to a wine that exists; and
    /// every stock can be reported as a 64-bit count.
    pub open spec fn valid(self) -> bool {
        &&& distinct_ids(self.wines)
        &&& forall|i: int| 0 <= i < self.wines.len() ==> (#[trigger] self.wines[i]).id < self.next_id
        &&& forall|k: int| 0 <= k < self.events.len() ==> has_wine(self.wines, (#[trigger] self.events[k]).wine_id)
        &&& forall|k: int|
            0 <= k < self.comments.len() ==> has_wine(self.wines, (#[trigger] self.comments[k]).wine_id)
        &&& forall|k: int| 0 <= k < self.links.len() ==> has_wine(self.wines, (#[trigger] self.links[k]).wine_id)
        &&& all_representable(self.events)
    }

    /// The stock of a wine.
    pub open spec fn stock(self, wine_id: i64) -> int {
        stock_of(self.events, wine_id)
    }
}

/// The description of the error for a wine that does not exist.
pub open spec fn msg_no_such_wine() -> Seq<char> {
    "no such wine"@
}

/// The description of the error for a cellar that has used up its ids.
pub open spec fn msg_no_id_left() -> Seq<char> {
    "no wine id left"@
}

/// The description of the error for a wine whose id another wine bears.
pub open spec fn msg_id_taken() -> Seq<char> {
    "wine id already in use"@
}

/// The description of the error for a wine whose id leaves no room for a
/// next id.
pub open spec fn msg_id_too_large() -> Seq<char> {
    "wine id out of range"@
}

/// The description of the error for a wine with the id `id` that cannot be
/// put into the cellar: the range of the id is looked at first.
pub open spec fn msg_not_admissible(id: i64) -> Seq<char> {
    if id == i64::MAX {
        msg_id_too_large()
    } else {
        msg_id_taken()
    }
}

/// The description of the error for a wine without a stored image.
pub open spec fn msg_no_image() -> Seq<char> {
    "wine has no image"@
}

/// Whether `e` reports a wine that does not exist.
pub open spec fn is_no_such_wine(e: AppError) -> bool {
    is_error(e, ErrorKind::NotFound, msg_no_such_wine())
}

/// Whether `e` reports a bottle count that is not positive.
pub open spec fn is_bad_count(e: AppError) -> bool {
    is_error(e, ErrorKind::InvalidInput, msg_bottles_not_positive())
}

/// Whether the date of a form was refused as no date.
pub open spec fn is_bad_date(e: AppError) -> bool {
    is_error(e, ErrorKind::InvalidInput, "bad date format"@)
}

/// Whether a wine with a given id can be put into the cellar: no wine has
/// the id yet, and it leaves room for a next id.
pub open spec fn admissible(cellar: CellarView, id: i64) -> bool {
    !has_wine(cellar.wines, id) && id < i64::MAX
}

/// The id that the next wine gets once a wine with the id `id` is in the
/// cellar.
pub open spec fn next_after(next_id: i64, id: i64) -> i64 {
    if id < next_id {
        next_id
    } else {
        (id + 1) as i64
    }
}

/// What appending an event with any delta makes of a cellar: a wine that
/// does not exist is refused; then the ledger decides. A delta of zero is
/// recorded like any other.
pub open spec fn logged(before: CellarView, after: CellarView, r: Result<(), AppError>, event: InventoryEvent) -> bool {
    if !has_wine(before.wines, event.wine_id) {
        after == before && (r matches Err(e) && is_no_such_wine(e))
    } else {
        after == (CellarView { events: after.events, ..before }) && appended(
            before.events,
            after.events,
            r,
            event,
        )
    }
}

/// What recording an inventory event makes of a cellar. A bottle count
/// that is not positive is refused first; then a wine that does not exist;
/// then the ledger decides. Whatever is refused leaves the cellar as it was,
/// and what is accepted changes nothing but the ledger.
pub open spec fn recorded(
    before: CellarView,
    after: CellarView,
    r: Result<(), AppError>,
    bottles: i64,
    event: InventoryEvent,
) -> bool {
    if bottles <= 0 {
        after == before && (r matches Err(e) && is_bad_count(e))
    } else if !has_wine(before.wines, event.wine_id) {
        after == before && (r matches Err(e) && is_no_such_wine(e))
    } else {
        after == (CellarView { events: after.events, ..before }) && appended(
            before.events,
            after.events,
            r,
            event,
        )
    }
}

/// The event that records a purchase, or else a consumption.
pub open spec fn movement_of(
    purchase: bool,
    wine_id: i64,
    bottles: i64,
    date: CalendarDate,
    time: TimeOfDay,
) -> InventoryEvent {
    if purchase {
        purchase_of(wine_id, bottles, date, time)
    } else {
        consumption_of(wine_id, bottles, date, time)
    }
}

/// What recording a purchase, or else a consumption, on the day `date`
/// makes of a cellar, at whatever time of day the server's clock says.
pub open spec fn recorded_on(
    before: CellarView,
    after: CellarView,
    r: Result<(), AppError>,
    purchase: bool,
    wine_id: i64,
    bottles: i64,
    date: CalendarDate,
) -> bool {
    exists|time: TimeOfDay|
        time.valid() && recorded(
            before,
            after,
            r,
            bottles,
            #[trigger] movement_of(purchase, wine_id, bottles, date, time),
        )
}

/// What a purchase or a consumption submitted with a date in writing makes
/// of a cellar. The bottle count is looked at first, then the date, then the
/// cellar; the time of day of the event is whatever the server's clock says.
pub open spec fn submitted(
    before: CellarView,
    after: CellarView,
    r: Result<(), AppError>,
    wine_id: i64,
    bottles: i64,
    date_text: Seq<char>,
    purchase: bool,
) -> bool {
    if bottles <= 0 {
        after == before && (r matches Err(e) && is_bad_count(e))
    } else {
        match date_of(parsed_date(date_text)) {
            None => after == before && (r matches Err(e) && is_bad_date(e)),
            Some(date) => recorded_on(before, after, r, purchase, wine_id, bottles, date),
        }
    }
}

/// What adding a comment makes of a cellar: the comment is appended to the
/// log, unless its wine does not exist.
pub open spec fn commented(before: CellarView, after: CellarView, r: Result<(), AppError>, c: CommentView) -> bool {
    if has_wine(before.wines, c.wine_id) {
        r is Ok && after == (CellarView { comments: before.comments.push(c), ..before })
    } else {
        after == before && (r matches Err(e) && is_no_such_wine(e))
    }
}

/// What replacing the grapes of a wine makes of a cellar: the links of the
/// wine are exchanged for links to the grapes named, unless the wine does
/// not exist.
pub open spec fn regraped(
    before: CellarView,
    after: CellarView,
    r: Result<(), AppError>,
    wine_id: i64,
    names: Seq<Seq<char>>,
) -> bool {
    if has_wine(before.wines, wine_id) {
        r is Ok && after == (CellarView { links: replaced(before.links, wine_id, names), ..before })
    } else {
        after == before && (r matches Err(e) && is_no_such_wine(e))
    }
}

/// A wine with the given stored image and thumbnail.
pub open spec fn with_images(wine: WineView, full: Seq<u8>, small: Seq<u8>) -> WineView {
    WineView { image: Some(full), thumbnail: Some(small), ..wine }
}

/// The cellar after the wine of the given id, which exists, got a new
/// stored image and thumbnail: the images it had are overwritten.
pub open spec fn imaged(before: CellarView, id: i64, full: Seq<u8>, small: Seq<u8>) -> CellarView {
    let p = position_of(before.wines, id);
    CellarView { wines: before.wines.update(p, with_images(before.wines[p], full, small)), ..before }
}

/// What the images that a pipeline produced, or its error, make of a
/// cellar: the images are stored with the wine, and an error leaves the
/// cellar as it was and is handed on.
pub open spec fn applied(
    before: CellarView,
    after: CellarView,
    r: Result<(), AppError>,
    id: i64,
    produced: Result<StoredImages, AppError>,
) -> bool {
    match produced {
        Ok(images) => r is Ok && after == imaged(before, id, images.full@, images.thumbnail@),
        Err(e) => r == Err::<(), AppError>(e) && after == before,
    }
}

/// What the upload of an image for a wine makes of a cellar. The size
/// guard decides first, then the existence of the wine; after that the
/// pipeline produces the images from the payload, or an error, and that is
/// applied.
pub open spec fn uploaded(
    before: CellarView,
    after: CellarView,
    r: Result<(), AppError>,
    wine_id: i64,
    declared: Option<u64>,
    raw: Seq<u8>,
    device_hint: Seq<char>,
) -> bool {
    if too_large(declared, raw.len()) {
        after == before && (r matches Err(e) && is_size_error(declared, e))
    } else if !has_wine(before.wines, wine_id) {
        after == before && (r matches Err(e) && is_no_such_wine(e))
    } else {
        exists|produced: Result<StoredImages, AppError>|
            processed(raw, device_hint, produced) && #[trigger] applied(
                before,
                after,
                r,
                wine_id,
                produced,
            )
    }
}

/// What cropping the stored image of a wine makes of a cellar. A rectangle
/// without area is refused first; then the wine must exist and have an
/// image; after that the pipeline produces the new images from the stored
/// image of the wine, or an error, and that is applied.
pub open spec fn recut(
    before: CellarView,
    after: CellarView,
    r: Result<(), AppError>,
    wine_id: i64,
    x: u32,
    y: u32,
    w: u32,
    h: u32,
) -> bool {
    if w == 0 || h == 0 {
        after == before && (r matches Err(e) && is_error(
            e,
            ErrorKind::InvalidInput,
            msg_crop_empty(),
        ))
    } else if !has_wine(before.wines, wine_id) {
        after == before && (r matches Err(e) && is_no_such_wine(e))
    } else {
        match before.wines[position_of(before.wines, wine_id)].image {
            None => after == before && (r matches Err(e) && is_error(e, ErrorKind::NotFound, msg_no_image())),
            Some(stored) => exists|produced: Result<StoredImages, AppError>|
                recropped(stored, x, y, w, h, produced) && #[trigger] applied(
                    before,
                    after,
                    r,
                    wine_id,
                    produced,
                ),
        }
    }
}

/// The wines without the wine of the given id.
pub open spec fn wines_without(wines: Seq<WineView>, id: i64) -> Seq<WineView> {
    if has_wine(wines, id) {
        wines.remove(position_of(wines, id))
    } else {
        wines
    }
}

/// The cellar after the wine of the given id was deleted: the wine is gone,
/// and with it every event, comment and link that belonged to it.
pub open spec fn deleted(before: CellarView, id: i64) -> CellarView {
    CellarView {
        wines: wines_without(before.wines, id),
        next_id: before.next_id,
        events: events_without(before.events, id),
        comments: comments_without(before.comments, id),
        links: links_without(before.links, id),
    }
}

/// The number of rows that belong to a wine: the wine itself, if it
/// exists, and its events, comments and links.
pub open spec fn rows_of(cellar: CellarView, id: i64) -> int {
    (if has_wine(cellar.wines, id) {
        1int
    } else {
        0int
    }) + events_of(cellar.events, id).len() + comments_of(cellar.comments, id).len() + links_of(
        cellar.links,
        id,
    ).len()
}

/// The number of rows of a cellar: its wines, events, comments and links.
pub open spec fn rows(cellar: CellarView) -> int {
    (cellar.wines.len() + cellar.events.len() + cellar.comments.len() + cellar.links.len()) as int
}

/// One statement of a transaction on the rows of a cellar, as a
/// mathematical value.
pub enum StatementView {
    /// Delete the comments on a wine.
    DeleteComments(i64),
    /// Delete the links of a wine to grapes.
    DeleteGrapes(i64),
    /// Delete the inventory events of a wine.
    DeleteEvents(i64),
    /// Delete a wine. It fails while a row still refers to the wine.
    DeleteWine(i64),
    /// Link a wine to a grape. It fails if the wine does not exist.
    InsertGrape(i64, Seq<char>),
}

/// Why a statement failed.
pub struct Failure {
    pub kind: ErrorKind,
    pub message: Seq<char>,
}

/// Whether `e` reports the failure `f`.
pub open spec fn reports(e: AppError, f: Failure) -> bool {
    is_error(e, f.kind, f.message)
}

/// The description of the error for a wine that cannot be deleted
/// because rows still refer to it.
pub open spec fn msg_wine_in_use() -> Seq<char> {
    "wine is still referred to"@
}

/// Whether an event, a comment or a link refers to the wine.
pub open spec fn has_rows(cellar: CellarView, id: i64) -> bool {
    events_of(cellar.events, id).len() > 0 || comments_of(cellar.comments, id).len() > 0 || links_of(
        cellar.links,
        id,
    ).len() > 0
}

/// What one statement makes of a cellar, or why it fails. A statement
/// that fails changes nothing.
pub open spec fn attempt(cellar: CellarView, statement: StatementView) -> Result<CellarView, Failure> {
    match statement {
        StatementView::DeleteComments(id) => Ok(
            CellarView { comments: comments_without(cellar.comments, id), ..cellar },
        ),
        StatementView::DeleteGrapes(id) => Ok(CellarView { links: links_without(cellar.links, id), ..cellar }),
        StatementView::DeleteEvents(id) => Ok(CellarView { events: events_without(cellar.events, id), ..cellar }),
        StatementView::DeleteWine(id) => if has_rows(cellar, id) {
            Err(Failure { kind: ErrorKind::Internal, message: msg_wine_in_use() })
        } else {
            Ok(CellarView { wines: wines_without(cellar.wines, id), ..cellar })
        },
        StatementView::InsertGrape(id, name) => if has_wine(cellar.wines, id) {
            Ok(CellarView { links: cellar.links.push(LinkView { wine_id: id, grape: name }), ..cellar })
        } else {
            Err(Failure { kind: ErrorKind::NotFound, message: msg_no_such_wine() })
        },
    }
}

/// What a list of statements, run in order, makes of a cellar, or the
/// failure of the first statement that fails.
pub open spec fn outcome(cellar: CellarView, plan: Seq<StatementView>) -> Result<CellarView, Failure>
    decreases plan.len(),
{
    if plan.len() == 0 {
        Ok(cellar)
    } else {
        match outcome(cellar, plan.drop_last()) {
            Ok(reached) => attempt(reached, plan.last()),
            Err(failure) => Err(failure),
        }
    }
}

/// The statements that delete a wine: whatever refers to the wine goes
/// first, the wine itself last, so that no row ever refers to a wine that is
/// gone.
pub open spec fn deletion_statements(id: i64) -> Seq<StatementView> {
    seq![
        StatementView::DeleteComments(id),
        StatementView::DeleteGrapes(id),
        StatementView::DeleteEvents(id),
        StatementView::DeleteWine(id),
    ]
}

/// The statements that replace the grapes of a wine: its links are
/// deleted, then one link is made for each grape named.
pub open spec fn replacement_statements(id: i64, names: Seq<Seq<char>>) -> Seq<StatementView> {
    seq![StatementView::DeleteGrapes(id)] + names.map_values(|name: Seq<char>| StatementView::InsertGrape(id, name))
}

/// What a line of the overview holds, as a mathematical value.
pub struct SummaryView {
    pub id: i64,
    pub name: Seq<char>,
    pub year: i64,
    pub num_bottles: int,
    pub thumbnail: Option<Seq<u8>>,
    pub grapes: Seq<Seq<char>>,
}

/// The line of the overview for one wine: what the wine is, its stock
/// summed from the ledger, and its grapes.
pub open spec fn summary_of(cellar: CellarView, wine: WineView) -> SummaryView {
    SummaryView {
        id: wine.id,
        name: wine.name,
        year: wine.year,
        num_bottles: stock_of(cellar.events, wine.id),
        thumbnail: wine.thumbnail,
        grapes: grapes_of(cellar.links, wine.id),
    }
}

/// The overview of the cellar: one line for each wine, in order.
pub open spec fn overview(cellar: CellarView) -> Seq<SummaryView> {
    cellar.wines.map_values(|w: WineView| summary_of(cellar, w))
}

/// Whether the wine has a grape whose name begins with `prefix`, upper and
/// lower case being taken for the same.
pub open spec fn wine_matches(cellar: CellarView, wine_id: i64, prefix: Seq<char>) -> bool {
    some_grape_starts_with(grapes_of(cellar.links, wine_id), prefix)
}

/// The lines of the overview that a filter on grapes lets through. No
/// filter, or an empty one, lets every wine through; any other lets through
/// the wines that have a grape whose name begins with it, upper and lower
/// case being taken for the same.
pub open spec fn filtered_overview(cellar: CellarView, filter: Option<Seq<char>>) -> Seq<SummaryView> {
    match filter {
        Some(prefix) => if prefix.len() == 0 {
            overview(cellar)
        } else {
            cellar.wines.filter(|w: WineView| wine_matches(cellar, w.id, prefix)).map_values(
                |w: WineView| summary_of(cellar, w),
            )
        },
        None => overview(cellar),
    }
}

/// The ids of the wines that have a grape whose name begins with `prefix`,
/// in the order of the wines.
pub open spec fn matching_ids(cellar: CellarView, prefix: Seq<char>) -> Seq<i64> {
    cellar.wines.filter(|w: WineView| wine_matches(cellar, w.id, prefix)).map_values(|w: WineView| w.id)
}

/// With unique ids, the wine found at a position is the wine of its id.
pub proof fn lemma_position_unique(wines: Seq<WineView>, i: int)
    requires
        distinct_ids(wines),
        0 <= i < wines.len(),
    ensures
        has_wine(wines, wines[i].id),
        position_of(wines, wines[i].id) == i,
{
    let j = position_of(wines, wines[i].id);
    assert(0 <= j < wines.len() && wines[j].id == wines[i].id);
}

/// A wine that was there is still there after another was added.
pub proof fn lemma_has_wine_push(wines: Seq<WineView>, added: WineView, id: i64)
    requires
        has_wine(wines, id),
    ensures
        has_wine(wines.push(added), id),
{
    let i = position_of(wines, id);
    assert(wines.push(added)[i].id == id);
}

/// The cellar with one more event in its ledger.
pub open spec fn with_event(cellar: CellarView, event: InventoryEvent) -> CellarView {
    CellarView { events: cellar.events.push(event), ..cellar }
}

/// A purchase followed by a consumption of the same number of bottles of
/// the same wine leaves the stock of every wine as it was: whenever the
/// purchase is accepted, so is the consumption, whatever the days and times
/// of the two.
pub proof fn lemma_buy_then_drink(
    before: CellarView,
    wine_id: i64,
    bottles: i64,
    bought_on: CalendarDate,
    bought_at: TimeOfDay,
    drunk_on: CalendarDate,
    drunk_at: TimeOfDay,
    other: i64,
)
    requires
        before.valid(),
        has_wine(before.wines, wine_id),
        bottles > 0,
        representable(before.stock(wine_id) + bottles),
    ensures
        ({
            let purchase = movement_of(true, wine_id, bottles, bought_on, bought_at);
            let consumption = movement_of(false, wine_id, bottles, drunk_on, drunk_at);
            let bought = with_event(before, purchase);
            let drunk = with_event(bought, consumption);
            &&& recorded(before, bought, Ok(()), bottles, purchase)
            &&& recorded(bought, drunk, Ok(()), bottles, consumption)
            &&& drunk.stock(other) == before.stock(other)
        }),
{
    let purchase = movement_of(true, wine_id, bottles, bought_on, bought_at);
    let consumption = movement_of(false, wine_id, bottles, drunk_on, drunk_at);
    lemma_stock_push(before.events, purchase, wine_id);
    lemma_stock_push(before.events.push(purchase), consumption, wine_id);
    lemma_stock_push(before.events, purchase, other);
    lemma_stock_push(before.events.push(purchase), consumption, other);
}

/// Where no event refers to a wine, no event bears its id.
pub proof fn lemma_no_rows(cellar: CellarView, id: i64)
    requires
        !has_rows(cellar, id),
    ensures
        forall|k: int| 0 <= k < cellar.events.len() ==> (#[trigger] cellar.events[k]).wine_id != id,
        forall|k: int| 0 <= k < cellar.comments.len() ==> (#[trigger] cellar.comments[k]).wine_id != id,
        forall|k: int| 0 <= k < cellar.links.len() ==> (#[trigger] cellar.links[k]).wine_id != id,
{
    assert forall|k: int| 0 <= k < cellar.events.len() implies (#[trigger] cellar.events[k]).wine_id != id by {
        if cellar.events[k].wine_id == id {
            cellar.events.lemma_filter_contains(|e: InventoryEvent| e.wine_id == id, k);
        }
    }
    assert forall|k: int| 0 <= k < cellar.comments.len() implies (#[trigger] cellar.comments[k]).wine_id
        != id by {
        if cellar.comments[k].wine_id == id {
            cellar.comments.lemma_filter_contains(|c: CommentView| c.wine_id == id, k);
        }
    }
    assert forall|k: int| 0 <= k < cellar.links.len() implies (#[trigger] cellar.links[k]).wine_id != id by {
        if cellar.links[k].wine_id == id {
            cellar.links.lemma_filter_contains(|l: LinkView| l.wine_id == id, k);
        }
    }
}

/// A statement that succeeds on a valid cellar leaves a valid cellar.
pub proof fn lemma_attempt_keeps_valid(cellar: CellarView, statement: StatementView)
    requires
        cellar.valid(),
    ensures
        attempt(cellar, statement) matches Ok(reached) ==> reached.valid(),
{
    match statement {
        StatementView::DeleteComments(id) => {
            let kept = comments_without(cellar.comments, id);
            assert forall|k: int| 0 <= k < kept.len() implies has_wine(cellar.wines, (#[trigger] kept[k]).wine_id) by {
                assert(kept.contains(kept[k]));
                cellar.comments.lemma_filter_contains_rev(|c: CommentView| c.wine_id != id, kept[k]);
                let j = choose|j: int| 0 <= j < cellar.comments.len() && cellar.comments[j] == kept[k];
                assert(has_wine(cellar.wines, cellar.comments[j].wine_id));
            }
        },
        StatementView::DeleteGrapes(id) => {
            let kept = links_without(cellar.links, id);
            assert forall|k: int| 0 <= k < kept.len() implies has_wine(cellar.wines, (#[trigger] kept[k]).wine_id) by {
                assert(kept.contains(kept[k]));
                cellar.links.lemma_filter_contains_rev(|l: LinkView| l.wine_id != id, kept[k]);
                let j = choose|j: int| 0 <= j < cellar.links.len() && cellar.links[j] == kept[k];
                assert(has_wine(cellar.wines, cellar.links[j].wine_id));
            }
        },
        StatementView::DeleteEvents(id) => {
            let kept = events_without(cellar.events, id);
            assert forall|k: int| 0 <= k < kept.len() implies has_wine(cellar.wines, (#[trigger] kept[k]).wine_id) by {
                assert(kept.contains(kept[k]));
                cellar.events.lemma_filter_contains_rev(|e: InventoryEvent| e.wine_id != id, kept[k]);
                let j = choose|j: int| 0 <= j < cellar.events.len() && cellar.events[j] == kept[k];
                assert(has_wine(cellar.wines, cellar.events[j].wine_id));
            }
            assert forall|w: i64| representable(#[trigger] stock_of(kept, w)) by {
                lemma_stock_without(cellar.events, id, w);
                assert(representable(stock_of(cellar.events, w)));
            }
        },
        StatementView::DeleteWine(id) => {
            if !has_rows(cellar, id) {
                let rest = wines_without(cellar.wines, id);
                lemma_no_rows(cellar, id);
                lemma_wines_without(cellar.wines, id, id);
                assert forall|i: int| 0 <= i < rest.len() implies (#[trigger] rest[i]).id < cellar.next_id by {
                    assert(cellar.wines.contains(rest[i]));
                    let j = choose|j: int| 0 <= j < cellar.wines.len() && cellar.wines[j] == rest[i];
                    assert(cellar.wines[j].id < cellar.next_id);
                }
                assert forall|k: int| 0 <= k < cellar.events.len() implies has_wine(
                    rest,
                    (#[trigger] cellar.events[k]).wine_id,
                ) by {
                    lemma_wines_without(cellar.wines, id, cellar.events[k].wine_id);
                }
                assert forall|k: int| 0 <= k < cellar.comments.len() implies has_wine(
                    rest,
                    (#[trigger] cellar.comments[k]).wine_id,
                ) by {
                    lemma_wines_without(cellar.wines, id, cellar.comments[k].wine_id);
                }
                assert forall|k: int| 0 <= k < cellar.links.len() implies has_wine(
                    rest,
                    (#[trigger] cellar.links[k]).wine_id,
                ) by {
                    lemma_wines_without(cellar.wines, id, cellar.links[k].wine_id);
                }
            }
        },
        StatementView::InsertGrape(id, name) => {
            if has_wine(cellar.wines, id) {
                let links = cellar.links.push(LinkView { wine_id: id, grape: name });
                assert forall|k: int| 0 <= k < links.len() implies has_wine(
                    cellar.wines,
                    (#[trigger] links[k]).wine_id,
                ) by {
                    if k < cellar.links.len() {
                        assert(links[k] == cellar.links[k]);
                    }
                }
            }
        },
    }
}

/// Once a transaction has failed, the statements that follow cannot mend
/// it: the failure of the first statement that fails is the outcome of the
/// whole.
pub proof fn lemma_outcome_fails_on(cellar: CellarView, plan: Seq<StatementView>, reached: int)
    requires
        0 <= reached <= plan.len(),
        outcome(cellar, plan.take(reached)) is Err,
    ensures
        outcome(cellar, plan) == outcome(cellar, plan.take(reached)),
    decreases plan.len() - reached,
{
    if reached < plan.len() {
        assert(plan.take(reached + 1).drop_last() =~= plan.take(reached));
        lemma_outcome_fails_on(cellar, plan, reached + 1);
    } else {
        assert(plan.take(reached) =~= plan);
    }
}

/// The statements that delete a wine, run in their order on a valid
/// cellar, all succeed, and they make of the cellar exactly what deleting
/// the wine makes of it.
pub proof fn lemma_deletion_plan(before: CellarView, id: i64)
    requires
        before.valid(),
    ensures
        outcome(before, deletion_statements(id)) == Ok::<CellarView, Failure>(deleted(before, id)),
{
    let plan = deletion_statements(id);
    let one = seq![StatementView::DeleteComments(id)];
    let two = one.push(StatementView::DeleteGrapes(id));
    let three = two.push(StatementView::DeleteEvents(id));
    assert(one.drop_last() =~= Seq::<StatementView>::empty());
    assert(two.drop_last() =~= one);
    assert(three.drop_last() =~= two);
    assert(plan.drop_last() =~= three);
    assert(outcome(before, Seq::<StatementView>::empty()) == Ok::<CellarView, Failure>(before));
    let c1 = CellarView { comments: comments_without(before.comments, id), ..before };
    assert(outcome(before, one) == Ok::<CellarView, Failure>(c1));
    let c2 = CellarView { links: links_without(before.links, id), ..c1 };
    assert(outcome(before, two) == Ok::<CellarView, Failure>(c2));
    let c3 = CellarView { events: events_without(before.events, id), ..c2 };
    assert(outcome(before, three) == Ok::<CellarView, Failure>(c3));
    lemma_events_without(before.events, id, id);
    lemma_comments_without(before.comments, id, id);
    lemma_links_without(before.links, id, id);
    assert(!has_rows(c3, id));
}

/// The statements that replace the grapes of a wine that exists, run in
/// their order, all succeed, and they make of the cellar exactly what
/// replacing the grapes makes of it.
pub proof fn lemma_replacement_plan(before: CellarView, id: i64, names: Seq<Seq<char>>)
    requires
        has_wine(before.wines, id),
    ensures
        outcome(before, replacement_statements(id, names)) == Ok::<CellarView, Failure>(
            CellarView { links: replaced(before.links, id, names), ..before },
        ),
    decreases names.len(),
{
    let plan = replacement_statements(id, names);
    if names.len() == 0 {
        assert(plan.drop_last() =~= Seq::<StatementView>::empty());
        assert(outcome(before, Seq::<StatementView>::empty()) == Ok::<CellarView, Failure>(before));
        assert(replaced(before.links, id, names) =~= links_without(before.links, id));
    } else {
        let fewer = names.drop_last();
        lemma_replacement_plan(before, id, fewer);
        assert(plan.drop_last() =~= replacement_statements(id, fewer));
        assert(plan.last() == StatementView::InsertGrape(id, names.last()));
        assert(replaced(before.links, id, fewer).push(LinkView { wine_id: id, grape: names.last() }) =~= replaced(
            before.links,
            id,
            names,
        ));
    }
}

/// After the grapes of an existing wine were replaced, every link still
/// belongs to a wine that exists.
pub proof fn lemma_replaced_links_have_wines(
    wines: Seq<WineView>,
    links: Seq<LinkView>,
    wine_id: i64,
    names: Seq<Seq<char>>,
)
    requires
        has_wine(wines, wine_id),
        forall|k: int| 0 <= k < links.len() ==> has_wine(wines, (#[trigger] links[k]).wine_id),
    ensures
        forall|k: int|
            0 <= k < replaced(links, wine_id, names).len() ==> has_wine(
                wines,
                (#[trigger] replaced(links, wine_id, names)[k]).wine_id,
            ),
{
    let kept = links_without(links, wine_id);
    let all = replaced(links, wine_id, names);
    assert forall|k: int| 0 <= k < all.len() implies has_wine(wines, (#[trigger] all[k]).wine_id) by {
        if k < kept.len() {
            assert(all[k] == kept[k]);
            assert(kept.contains(kept[k]));
            links.lemma_filter_contains_rev(|l: LinkView| l.wine_id != wine_id, kept[k]);
            let j = choose|j: int| 0 <= j < links.len() && links[j] == kept[k];
            assert(has_wine(wines, links[j].wine_id));
        } else {
            assert(all[k] == links_for(wine_id, names)[k - kept.len()]);
        }
    }
}

/// Taking a wine out of the list leaves the other wines in it, and only
/// them.
pub proof fn lemma_wines_without(wines: Seq<WineView>, id: i64, other: i64)
    requires
        distinct_ids(wines),
    ensures
        distinct_ids(wines_without(wines, id)),
        !has_wine(wines_without(wines, id), id),
        other != id ==> has_wine(wines_without(wines, id), other) == has_wine(wines, other),
        wines_without(wines, id).len() == wines.len() - (if has_wine(wines, id) {
            1int
        } else {
            0int
        }),
        forall|i: int|
            0 <= i < wines_without(wines, id).len() ==> wines.contains(#[trigger] wines_without(wines, id)[i]),
{
    let rest = wines_without(wines, id);
    if has_wine(wines, id) {
        let p = position_of(wines, id);
        assert forall|i: int, j: int| 0 <= i < j < rest.len() implies (#[trigger] rest[i]).id != (
        #[trigger] rest[j]).id by {
            let i0 = if i < p {
                i
            } else {
                i + 1
            };
            let j0 = if j < p {
                j
            } else {
                j + 1
            };
            assert(rest[i] == wines[i0] && rest[j] == wines[j0]);
        }
        if has_wine(rest, id) {
            let q = position_of(rest, id);
            let q0 = if q < p {
                q
            } else {
                q + 1
            };
            assert(rest[q] == wines[q0]);
            assert(wines[q0].id == wines[p].id);
            assert(false);
        }
        if other != id {
            if has_wine(wines, other) {
                let k = position_of(wines, other);
                let k1 = if k < p {
                    k
                } else {
                    k - 1
                };
                assert(rest[k1] == wines[k]);
            }
            if has_wine(rest, other) {
                let k = position_of(rest, other);
                let k0 = if k < p {
                    k
                } else {
                    k + 1
                };
                assert(rest[k] == wines[k0]);
            }
        }
        assert forall|i: int| 0 <= i < rest.len() implies wines.contains(#[trigger] rest[i]) by {
            let i0 = if i < p {
                i
            } else {
                i + 1
            };
            assert(wines[i0] == rest[i]);
        }
    } else {
        assert forall|i: int| 0 <= i < rest.len() implies wines.contains(#[trigger] rest[i]) by {
            assert(wines[i] == rest[i]);
        }
    }
}

/// Deleting a wine removes the wine and every row that belonged to it, and
/// nothing else: afterwards no event, comment or link refers to it, the
/// cellar is smaller by exactly the rows of the wine, and every other wine
/// has the events, comments, grapes and stock that it had. The cellar stays
/// valid.
pub proof fn lemma_delete_cascades(before: CellarView, id: i64, other: i64)
    requires
        before.valid(),
    ensures
        deleted(before, id).valid(),
        rows_of(deleted(before, id), id) == 0,
        rows(deleted(before, id)) == rows(before) - rows_of(before, id),
        deleted(before, id).stock(id) == 0,
        other != id ==> {
            &&& has_wine(deleted(before, id).wines, other) == has_wine(before.wines, other)
            &&& events_of(deleted(before, id).events, other) == events_of(before.events, other)
            &&& comments_of(deleted(before, id).comments, other) == comments_of(before.comments, other)
            &&& links_of(deleted(before, id).links, other) == links_of(before.links, other)
            &&& deleted(before, id).stock(other) == before.stock(other)
        },
{
    let after = deleted(before, id);
    lemma_wines_without(before.wines, id, other);
    lemma_events_without(before.events, id, id);
    lemma_events_without(before.events, id, other);
    lemma_comments_without(before.comments, id, id);
    lemma_comments_without(before.comments, id, other);
    lemma_links_without(before.links, id, id);
    lemma_links_without(before.links, id, other);
    lemma_events_partition(before.events, id);
    lemma_comments_partition(before.comments, id);
    lemma_links_partition(before.links, id);
    lemma_stock_without(before.events, id, id);
    lemma_stock_without(before.events, id, other);
    assert forall|w: i64| representable(#[trigger] stock_of(after.events, w)) by {
        lemma_stock_without(before.events, id, w);
        assert(representable(stock_of(before.events, w)));
    }
    assert forall|i: int| 0 <= i < after.wines.len() implies (#[trigger] after.wines[i]).id
        < after.next_id by {
        assert(before.wines.contains(after.wines[i]));
        let j = choose|j: int| 0 <= j < before.wines.len() && before.wines[j] == after.wines[i];
        assert(before.wines[j].id < before.next_id);
    }
    assert forall|k: int| 0 <= k < after.events.len() implies has_wine(
        after.wines,
        (#[trigger] after.events[k]).wine_id,
    ) by {
        let e = after.events[k];
        assert(after.events.contains(e));
        before.events.lemma_filter_pred(|e: InventoryEvent| e.wine_id != id, k);
        before.events.lemma_filter_contains_rev(|e: InventoryEvent| e.wine_id != id, e);
        let j = choose|j: int| 0 <= j < before.events.len() && before.events[j] == e;
        assert(has_wine(before.wines, before.events[j].wine_id));
        lemma_wines_without(before.wines, id, e.wine_id);
    }
    assert forall|k: int| 0 <= k < after.comments.len() implies has_wine(
        after.wines,
        (#[trigger] after.comments[k]).wine_id,
    ) by {
        let c = after.comments[k];
        assert(after.comments.contains(c));
        before.comments.lemma_filter_pred(|c: CommentView| c.wine_id != id, k);
        before.comments.lemma_filter_contains_rev(|c: CommentView| c.wine_id != id, c);
        let j = choose|j: int| 0 <= j < before.comments.len() && before.comments[j] == c;
        assert(has_wine(before.wines, before.comments[j].wine_id));
        lemma_wines_without(before.wines, id, c.wine_id);
    }
    assert forall|k: int| 0 <= k < after.links.len() implies has_wine(
        after.wines,
        (#[trigger] after.links[k]).wine_id,
    ) by {
        let l = after.links[k];
        assert(after.links.contains(l));
        before.links.lemma_filter_pred(|l: LinkView| l.wine_id != id, k);
        before.links.lemma_filter_contains_rev(|l: LinkView| l.wine_id != id, l);
        let j = choose|j: int| 0 <= j < before.links.len() && before.links[j] == l;
        assert(has_wine(before.wines, before.links[j].wine_id));
        lemma_wines_without(before.wines, id, l.wine_id);
    }
}

} // verus!
