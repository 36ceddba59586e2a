use wine_cellar::cellar::{deletion_plan, replacement_plan, Cellar, Removed, Statement, Wine};
use wine_cellar::clock::{CalendarDate, TimeOfDay, Timestamp};
use wine_cellar::error::ErrorKind;
use wine_cellar::imaging::{decode, encode_png, StoredImages};
use wine_cellar::picture::Picture;

fn date(year: i32, month: u32, day: u32) -> CalendarDate {
    CalendarDate::new(year, month, day).unwrap()
}

fn noon() -> TimeOfDay {
    TimeOfDay::new(12, 0, 0, 0).unwrap()
}

fn at(day: u32) -> Timestamp {
    Timestamp { date: date(2024, 3, day), time: noon() }
}

fn names(list: &[&str]) -> Vec<String> {
    list.iter().map(|s| s.to_string()).collect()
}

fn gradient(width: u32, height: u32) -> Picture {
    let mut pixels = Vec::new();
    for y in 0..height {
        for x in 0..width {
            pixels.extend_from_slice(&[(x % 256) as u8, (y % 256) as u8, ((x + y) % 256) as u8, 255]);
        }
    }
    Picture::new(width, height, pixels).unwrap()
}

fn cellar_with_two_wines() -> (Cellar, i64, i64) {
    let mut cellar = Cellar::new();
    let barolo = cellar.add_wine("Barolo", 2015).unwrap();
    let beaujolais = cellar.add_wine("Beaujolais", 2022).unwrap();
    (cellar, barolo, beaujolais)
}

#[test]
fn end_to_end_scenario_gives_a_stock_of_nine() {
    let mut cellar = Cellar::new();
    let id = cellar.add_wine("Barolo", 2015).unwrap();
    cellar.buy_wine(id, 12, "2024-01-01").unwrap();
    cellar.drink_wine(id, 3, "2024-06-01").unwrap();
    assert_eq!(cellar.current_stock(id), 9);
    let events = cellar.events_for(id);
    assert_eq!(events.len(), 2);
    assert_eq!((events[0].bottles, events[0].at.date), (12, date(2024, 1, 1)));
    assert_eq!((events[1].bottles, events[1].at.date), (-3, date(2024, 6, 1)));
    let wine = cellar.get_wine(id).unwrap();
    assert_eq!((wine.name.as_str(), wine.year), ("Barolo", 2015));
}

#[test]
fn wines_get_ids_in_sequence() {
    let (cellar, a, b) = cellar_with_two_wines();
    assert_eq!((a, b), (1, 2));
    assert_eq!(cellar.wine_count(), 2);
    assert!(cellar.contains_wine(1));
    assert!(!cellar.contains_wine(3));
    assert_eq!(cellar.wines()[1].name, "Beaujolais");
    assert!(cellar.wines()[0].image.is_none());
    assert_eq!(cellar.current_stock(a), 0);
    assert_eq!(cellar.current_stock(77), 0);
    let e = cellar.get_wine(3).unwrap_err();
    assert_eq!((e.kind, e.message.as_str()), (ErrorKind::NotFound, "no such wine"));
    assert_eq!(e.status_code(), 404);
}

#[test]
fn a_cellar_is_filled_from_stored_wines() {
    let mut cellar = Cellar::new();
    let wine = |id: i64, name: &str| Wine { id, name: name.to_string(), year: 2000, image: None, thumbnail: Some(vec![1]) };
    cellar.insert_wine(wine(5, "Five")).unwrap();
    cellar.insert_wine(wine(2, "Two")).unwrap();
    let e = cellar.insert_wine(wine(5, "Again")).unwrap_err();
    assert_eq!((e.kind, e.message.as_str()), (ErrorKind::InvalidInput, "wine id already in use"));
    let e = cellar.insert_wine(wine(i64::MAX, "Last")).unwrap_err();
    assert_eq!((e.kind, e.message.as_str()), (ErrorKind::InvalidInput, "wine id out of range"));
    assert_eq!(cellar.wine_count(), 2);
    assert_eq!(cellar.add_wine("Next", 2001).unwrap(), 6);
    assert_eq!(cellar.thumbnail(5).unwrap(), Some(vec![1]));
    cellar.insert_wine(wine(i64::MAX - 1, "Almost")).unwrap();
    let e = cellar.add_wine("None left", 2001).unwrap_err();
    assert_eq!((e.kind, e.message.as_str()), (ErrorKind::Internal, "no wine id left"));
    assert_eq!(cellar.wine_count(), 4);
}

#[test]
fn recording_checks_count_then_wine_then_range() {
    let (mut cellar, a, _) = cellar_with_two_wines();
    let e = cellar.purchase_at(99, 0, date(2024, 1, 1), noon()).unwrap_err();
    assert_eq!((e.kind, e.message.as_str()), (ErrorKind::InvalidInput, "bottle count must be positive"));
    let e = cellar.consume_at(a, -1, date(2024, 1, 1), noon()).unwrap_err();
    assert_eq!(e.kind, ErrorKind::InvalidInput);
    let e = cellar.purchase_at(99, 1, date(2024, 1, 1), noon()).unwrap_err();
    assert_eq!((e.kind, e.message.as_str()), (ErrorKind::NotFound, "no such wine"));
    let e = cellar.consume_at(99, 1, date(2024, 1, 1), noon()).unwrap_err();
    assert_eq!(e.kind, ErrorKind::NotFound);
    cellar.purchase_at(a, i64::MAX, date(2024, 1, 1), noon()).unwrap();
    let e = cellar.purchase_at(a, 1, date(2024, 1, 1), noon()).unwrap_err();
    assert_eq!((e.kind, e.message.as_str()), (ErrorKind::InvalidInput, "stock out of range"));
    assert_eq!(cellar.events_for(a).len(), 1);
    assert_eq!(cellar.current_stock(a), i64::MAX);
}

#[test]
fn a_submitted_movement_needs_a_date() {
    let (mut cellar, a, _) = cellar_with_two_wines();
    let e = cellar.buy_wine(a, 3, "tomorrow").unwrap_err();
    assert_eq!((e.kind, e.message.as_str()), (ErrorKind::InvalidInput, "bad date format"));
    let e = cellar.drink_wine(a, 3, "2024-02-30").unwrap_err();
    assert_eq!((e.kind, e.message.as_str()), (ErrorKind::InvalidInput, "bad date format"));
    let e = cellar.buy_wine(a, 0, "tomorrow").unwrap_err();
    assert_eq!(e.message, "bottle count must be positive");
    let e = cellar.drink_wine(a, 0, "2024-01-01").unwrap_err();
    assert_eq!(e.message, "bottle count must be positive");
    let e = cellar.buy_wine(99, 1, "2024-01-01").unwrap_err();
    assert_eq!(e.kind, ErrorKind::NotFound);
    let e = cellar.drink_wine(99, 1, "2024-01-01").unwrap_err();
    assert_eq!(e.kind, ErrorKind::NotFound);
    assert_eq!(cellar.events_for(a).len(), 0);
    cellar.drink_wine(a, 2, "2024-01-01").unwrap();
    assert_eq!(cellar.current_stock(a), -2);
}

#[test]
fn deleting_a_wine_removes_all_that_hangs_on_it() {
    let (mut cellar, a, b) = cellar_with_two_wines();
    cellar.purchase_at(a, 12, date(2024, 1, 1), noon()).unwrap();
    cellar.consume_at(a, 3, date(2024, 1, 2), noon()).unwrap();
    cellar.purchase_at(b, 6, date(2024, 1, 3), noon()).unwrap();
    cellar.add_comment_at(a, "tannic", at(1)).unwrap();
    cellar.add_comment_at(b, "light", at(2)).unwrap();
    cellar.replace_grapes(a, &names(&["Nebbiolo"])).unwrap();
    cellar.replace_grapes(b, &names(&["Gamay"])).unwrap();

    let removed = cellar.delete_wine(a);
    assert_eq!(removed, Removed { wine: true, events: 2, comments: 1, grapes: 1 });
    assert!(!cellar.contains_wine(a));
    assert_eq!(cellar.wine_count(), 1);
    assert_eq!(cellar.events_for(a).len(), 0);
    assert_eq!(cellar.comments_for(a).len(), 0);
    assert_eq!(cellar.grapes_for(a), names(&[]));
    assert_eq!(cellar.current_stock(a), 0);

    assert!(cellar.contains_wine(b));
    assert_eq!(cellar.current_stock(b), 6);
    assert_eq!(cellar.comments_for(b)[0].text, "light");
    assert_eq!(cellar.grapes_for(b), names(&["Gamay"]));

    assert_eq!(cellar.delete_wine(a), Removed { wine: false, events: 0, comments: 0, grapes: 0 });
    assert_eq!(cellar.wine_count(), 1);
    assert_eq!(cellar.add_wine("Chianti", 2019).unwrap(), 3);
}

#[test]
fn comments_need_a_wine_and_are_read_newest_first() {
    let (mut cellar, a, _) = cellar_with_two_wines();
    let e = cellar.add_comment_at(99, "lost", at(1)).unwrap_err();
    assert_eq!(e.kind, ErrorKind::NotFound);
    let e = cellar.add_comment(99, "lost").unwrap_err();
    assert_eq!(e.kind, ErrorKind::NotFound);
    assert!(cellar.latest_comment(a).is_none());
    cellar.add_comment_at(a, "first", at(1)).unwrap();
    cellar.add_comment_at(a, "third", at(3)).unwrap();
    cellar.add_comment_at(a, "second", at(2)).unwrap();
    let texts: Vec<String> = cellar.comments_for(a).into_iter().map(|c| c.text).collect();
    assert_eq!(texts, vec!["third", "second", "first"]);
    assert_eq!(cellar.latest_comment(a).unwrap().text, "third");
    cellar.add_comment(a, "now").unwrap();
    assert_eq!(cellar.latest_comment(a).unwrap().text, "now");
    assert_eq!(cellar.comments_for(a).len(), 4);
}

#[test]
fn grapes_are_replaced_as_a_whole() {
    let (mut cellar, a, b) = cellar_with_two_wines();
    let e = cellar.replace_grapes(99, &names(&["Gamay"])).unwrap_err();
    assert_eq!(e.kind, ErrorKind::NotFound);
    cellar.replace_grapes(a, &names(&["Nebbiolo", "Barbera"])).unwrap();
    cellar.replace_grapes(b, &names(&["Gamay"])).unwrap();
    cellar.replace_grapes(a, &names(&["Barbera"])).unwrap();
    assert_eq!(cellar.grapes_for(a), names(&["Barbera"]));
    cellar.replace_grapes(a, &names(&[])).unwrap();
    assert_eq!(cellar.grapes_for(a), names(&[]));
    assert_eq!(cellar.grapes_for(b), names(&["Gamay"]));
}

#[test]
fn wines_are_filtered_by_the_prefix_of_a_grape() {
    let (mut cellar, a, b) = cellar_with_two_wines();
    let c = cellar.add_wine("Barbera d'Asti", 2020).unwrap();
    cellar.replace_grapes(a, &names(&["Nebbiolo"])).unwrap();
    cellar.replace_grapes(b, &names(&["Gamay"])).unwrap();
    cellar.replace_grapes(c, &names(&["Barbera", "Nebbiolo"])).unwrap();
    assert_eq!(cellar.wines_with_grape("bar"), vec![c]);
    assert_eq!(cellar.wines_with_grape("BAR"), vec![c]);
    assert_eq!(cellar.wines_with_grape("Barb"), vec![c]);
    assert_eq!(cellar.wines_with_grape("arbera"), Vec::<i64>::new());
    assert_eq!(cellar.wines_with_grape("NEB"), vec![a, c]);
    assert_eq!(cellar.wines_with_grape(""), vec![a, b, c]);
}

#[test]
fn the_overview_sums_the_ledger() {
    let (mut cellar, a, b) = cellar_with_two_wines();
    cellar.purchase_at(a, 12, date(2024, 1, 1), noon()).unwrap();
    cellar.consume_at(a, 3, date(2024, 1, 2), noon()).unwrap();
    cellar.purchase_at(b, 6, date(2024, 1, 3), noon()).unwrap();
    cellar.replace_grapes(a, &names(&["Nebbiolo"])).unwrap();
    cellar.set_image(b, StoredImages { full: vec![1, 2], thumbnail: vec![3] }).unwrap();
    let lines = cellar.wine_table();
    assert_eq!(lines.len(), 2);
    assert_eq!((lines[0].id, lines[0].name.as_str(), lines[0].year, lines[0].num_bottles), (a, "Barolo", 2015, 9));
    assert_eq!(lines[0].grapes, names(&["Nebbiolo"]));
    assert_eq!(lines[0].thumbnail, None);
    assert_eq!((lines[1].id, lines[1].num_bottles), (b, 6));
    assert_eq!(lines[1].thumbnail, Some(vec![3]));
    assert_eq!(lines[1].grapes, names(&[]));
}

#[test]
fn the_details_of_a_wine_hold_its_events_and_comments() {
    let (mut cellar, a, b) = cellar_with_two_wines();
    cellar.purchase_at(a, 12, date(2024, 1, 1), noon()).unwrap();
    cellar.purchase_at(b, 1, date(2024, 1, 1), noon()).unwrap();
    cellar.add_comment_at(a, "older", at(1)).unwrap();
    cellar.add_comment_at(a, "newer", at(2)).unwrap();
    let d = cellar.wine_information(a).unwrap();
    assert_eq!(d.wine.name, "Barolo");
    assert_eq!(d.events.len(), 1);
    assert_eq!(d.events[0].bottles, 12);
    assert_eq!(d.comments[0].text, "newer");
    assert_eq!(d.comments[1].text, "older");
    let e = cellar.wine_information(99).unwrap_err();
    assert_eq!(e.kind, ErrorKind::NotFound);
}

#[test]
fn images_are_stored_and_overwritten() {
    let (mut cellar, a, _) = cellar_with_two_wines();
    assert_eq!(cellar.image(a).unwrap(), None);
    assert_eq!(cellar.thumbnail(a).unwrap(), None);
    assert_eq!(cellar.image(99).unwrap_err().kind, ErrorKind::NotFound);
    assert_eq!(cellar.thumbnail(99).unwrap_err().kind, ErrorKind::NotFound);
    cellar.set_image(a, StoredImages { full: vec![1, 2, 3], thumbnail: vec![4] }).unwrap();
    assert_eq!(cellar.image(a).unwrap(), Some(vec![1, 2, 3]));
    assert_eq!(cellar.thumbnail(a).unwrap(), Some(vec![4]));
    cellar.set_image(a, StoredImages { full: vec![9], thumbnail: vec![8, 7] }).unwrap();
    assert_eq!(cellar.image(a).unwrap(), Some(vec![9]));
    assert_eq!(cellar.thumbnail(a).unwrap(), Some(vec![8, 7]));
    let e = cellar.set_image(99, StoredImages { full: vec![], thumbnail: vec![] }).unwrap_err();
    assert_eq!(e.kind, ErrorKind::NotFound);
    assert_eq!(cellar.get_wine(a).unwrap().name, "Barolo");
}

#[test]
fn an_upload_is_stored_with_its_wine() {
    let (mut cellar, a, b) = cellar_with_two_wines();
    let raw = encode_png(&gradient(700, 350)).unwrap();
    cellar.set_wine_image(a, &raw, Some(raw.len() as u64), "Firefox").unwrap();
    let full = decode(&cellar.image(a).unwrap().unwrap()).unwrap();
    assert_eq!((full.width(), full.height()), (512, 256));
    let small = decode(&cellar.thumbnail(a).unwrap().unwrap()).unwrap();
    assert_eq!((small.width(), small.height()), (128, 64));
    assert_eq!(cellar.image(b).unwrap(), None);
}

#[test]
fn a_rejected_upload_leaves_the_stored_image_untouched() {
    let (mut cellar, a, _) = cellar_with_two_wines();
    cellar.set_image(a, StoredImages { full: vec![1], thumbnail: vec![2] }).unwrap();
    let big = vec![0u8; 11 * 1024 * 1024];
    let e = cellar.set_wine_image(a, &big, None, "Firefox").unwrap_err();
    assert_eq!(e.kind, ErrorKind::PayloadTooLarge);
    let e = cellar.set_wine_image(99, &big, None, "Firefox").unwrap_err();
    assert_eq!(e.kind, ErrorKind::PayloadTooLarge);
    let e = cellar.set_wine_image(a, b"x", Some(u64::MAX), "Firefox").unwrap_err();
    assert_eq!(e.kind, ErrorKind::PayloadTooLarge);
    let e = cellar.set_wine_image(99, b"junk", None, "Firefox").unwrap_err();
    assert_eq!(e.kind, ErrorKind::NotFound);
    let e = cellar.set_wine_image(a, b"junk", None, "Firefox").unwrap_err();
    assert_eq!((e.kind, e.message.as_str()), (ErrorKind::InvalidInput, "unrecognized or corrupt image"));
    assert_eq!(cellar.image(a).unwrap(), Some(vec![1]));
    assert_eq!(cellar.thumbnail(a).unwrap(), Some(vec![2]));
}

#[test]
fn cropping_replaces_the_stored_image() {
    let (mut cellar, a, _) = cellar_with_two_wines();
    let source = gradient(60, 40);
    cellar.set_wine_image(a, &encode_png(&source).unwrap(), None, "Firefox").unwrap();
    cellar.crop_image(a, 50, 10, 20, 5).unwrap();
    let full = decode(&cellar.image(a).unwrap().unwrap()).unwrap();
    assert_eq!((full.width(), full.height()), (60 - 50, 5));
    assert_eq!(full.pixels(), source.crop(50, 10, 20, 5).unwrap().pixels());
    let small = decode(&cellar.thumbnail(a).unwrap().unwrap()).unwrap();
    assert_eq!((small.width(), small.height()), (10, 5));
}

#[test]
fn a_crop_that_fails_leaves_the_stored_image_untouched() {
    let (mut cellar, a, b) = cellar_with_two_wines();
    let stored = encode_png(&gradient(60, 40)).unwrap();
    cellar.set_wine_image(a, &stored, None, "Firefox").unwrap();
    let before = (cellar.image(a).unwrap(), cellar.thumbnail(a).unwrap());
    for (w, h) in [(0, 10), (10, 0)] {
        let e = cellar.crop_image(a, 0, 0, w, h).unwrap_err();
        assert_eq!((e.kind, e.message.as_str()), (ErrorKind::InvalidInput, "crop size must be non-zero"));
    }
    let e = cellar.crop_image(a, 60, 0, 1, 1).unwrap_err();
    assert_eq!((e.kind, e.message.as_str()), (ErrorKind::InvalidInput, "crop origin out of bounds"));
    let e = cellar.crop_image(99, 0, 0, 1, 1).unwrap_err();
    assert_eq!((e.kind, e.message.as_str()), (ErrorKind::NotFound, "no such wine"));
    let e = cellar.crop_image(99, 0, 0, 0, 1).unwrap_err();
    assert_eq!(e.message, "crop size must be non-zero");
    let e = cellar.crop_image(b, 0, 0, 1, 1).unwrap_err();
    assert_eq!((e.kind, e.message.as_str()), (ErrorKind::NotFound, "wine has no image"));
    assert_eq!((cellar.image(a).unwrap(), cellar.thumbnail(a).unwrap()), before);
    cellar.set_image(b, StoredImages { full: b"junk".to_vec(), thumbnail: vec![] }).unwrap();
    let e = cellar.crop_image(b, 0, 0, 1, 1).unwrap_err();
    assert_eq!(e.kind, ErrorKind::InvalidInput);
    assert_eq!(cellar.image(b).unwrap(), Some(b"junk".to_vec()));
}

#[test]
fn a_submitted_selection_sets_the_grapes() {
    let (mut cellar, a, b) = cellar_with_two_wines();
    cellar.post_wine_grapes(a, b"grapes=Barbera&grapes=Pinot%20Noir").unwrap();
    assert_eq!(cellar.grapes_for(a), names(&["Barbera", "Pinot Noir"]));
    cellar.post_wine_grapes(b, b"grapes=Gamay").unwrap();
    cellar.post_wine_grapes(a, b"").unwrap();
    assert_eq!(cellar.grapes_for(a), names(&[]));
    assert_eq!(cellar.grapes_for(b), names(&["Gamay"]));
    let e = cellar.post_wine_grapes(b, b"grapes=%FF").unwrap_err();
    assert_eq!((e.kind, e.message.as_str()), (ErrorKind::InvalidInput, "form is not valid UTF-8"));
    let e = cellar.post_wine_grapes(99, b"grapes=%FF").unwrap_err();
    assert_eq!(e.kind, ErrorKind::InvalidInput);
    let e = cellar.post_wine_grapes(99, b"grapes=Gamay").unwrap_err();
    assert_eq!(e.kind, ErrorKind::NotFound);
    assert_eq!(cellar.grapes_for(b), names(&["Gamay"]));
}

#[test]
fn the_image_of_a_wine_is_sent_as_bytes() {
    let (mut cellar, a, b) = cellar_with_two_wines();
    cellar.set_image(a, StoredImages { full: vec![1, 2, 3], thumbnail: vec![4] }).unwrap();
    assert_eq!(cellar.wine_image(a).unwrap(), vec![1, 2, 3]);
    assert_eq!(cellar.wine_image(b).unwrap(), Vec::<u8>::new());
    assert_eq!(cellar.wine_image(99).unwrap_err().kind, ErrorKind::NotFound);
}

#[test]
fn an_event_with_any_delta_needs_a_wine() {
    let (mut cellar, a, _) = cellar_with_two_wines();
    cellar.record_event(a, -5, at(1)).unwrap();
    cellar.record_event(a, 0, at(2)).unwrap();
    cellar.record_event(a, 7, at(3)).unwrap();
    assert_eq!(cellar.current_stock(a), 2);
    assert_eq!(cellar.events_for(a).len(), 3);
    let e = cellar.record_event(99, 1, at(1)).unwrap_err();
    assert_eq!((e.kind, e.message.as_str()), (ErrorKind::NotFound, "no such wine"));
    cellar.record_event(a, i64::MAX - 2, at(4)).unwrap();
    let e = cellar.record_event(a, 1, at(5)).unwrap_err();
    assert_eq!((e.kind, e.message.as_str()), (ErrorKind::InvalidInput, "stock out of range"));
}

fn stocked_cellar() -> (Cellar, i64, i64) {
    let (mut cellar, a, b) = cellar_with_two_wines();
    cellar.purchase_at(a, 12, date(2024, 1, 1), noon()).unwrap();
    cellar.purchase_at(b, 6, date(2024, 1, 3), noon()).unwrap();
    cellar.add_comment_at(a, "tannic", at(1)).unwrap();
    cellar.add_comment_at(b, "light", at(2)).unwrap();
    cellar.replace_grapes(a, &names(&["Nebbiolo"])).unwrap();
    cellar.replace_grapes(b, &names(&["Gamay"])).unwrap();
    (cellar, a, b)
}

/// Everything that can be seen of a wine.
fn seen(cellar: &Cellar, id: i64) -> (bool, i64, usize, usize, Vec<String>) {
    (
        cellar.contains_wine(id),
        cellar.current_stock(id),
        cellar.events_for(id).len(),
        cellar.comments_for(id).len(),
        cellar.grapes_for(id),
    )
}

#[test]
fn the_deletion_plan_deletes_what_deleting_deletes() {
    let (mut by_plan, a, b) = stocked_cellar();
    let (mut direct, _, _) = stocked_cellar();
    let plan = deletion_plan(a);
    assert_eq!(plan.len(), 4);
    assert!(matches!(plan[0], Statement::DeleteComments(id) if id == a));
    assert!(matches!(plan[3], Statement::DeleteWine(id) if id == a));
    by_plan.transact(&plan).unwrap();
    direct.delete_wine(a);
    assert_eq!(seen(&by_plan, a), (false, 0, 0, 0, names(&[])));
    assert_eq!(seen(&by_plan, a), seen(&direct, a));
    assert_eq!(seen(&by_plan, b), seen(&direct, b));
    assert_eq!(seen(&by_plan, b), (true, 6, 1, 1, names(&["Gamay"])));
    assert_eq!(by_plan.wine_count(), 1);
}

#[test]
fn a_failure_in_the_middle_of_a_deletion_affects_no_row() {
    let (mut cellar, a, b) = stocked_cellar();
    let before = (seen(&cellar, a), seen(&cellar, b), cellar.wine_count());
    // the wine is deleted while its events still refer to it
    let plan = vec![Statement::DeleteComments(a), Statement::DeleteGrapes(a), Statement::DeleteWine(a)];
    let e = cellar.transact(&plan).unwrap_err();
    assert_eq!((e.kind, e.message.as_str()), (ErrorKind::Internal, "wine is still referred to"));
    assert_eq!((seen(&cellar, a), seen(&cellar, b), cellar.wine_count()), before);
    // the failure comes after the last statement that could succeed
    let plan = vec![
        Statement::DeleteComments(a),
        Statement::DeleteGrapes(a),
        Statement::DeleteEvents(a),
        Statement::DeleteWine(a),
        Statement::InsertGrape(a, "Barbera".to_string()),
    ];
    let e = cellar.transact(&plan).unwrap_err();
    assert_eq!((e.kind, e.message.as_str()), (ErrorKind::NotFound, "no such wine"));
    assert_eq!((seen(&cellar, a), seen(&cellar, b), cellar.wine_count()), before);
    assert_eq!(cellar.comments_for(a)[0].text, "tannic");
}

#[test]
fn the_replacement_plan_sets_the_grapes_or_nothing() {
    let (mut cellar, a, b) = stocked_cellar();
    cellar.transact(&replacement_plan(a, &names(&["Barbera", "Dolcetto"]))).unwrap();
    assert_eq!(cellar.grapes_for(a), names(&["Barbera", "Dolcetto"]));
    assert_eq!(cellar.grapes_for(b), names(&["Gamay"]));
    cellar.transact(&replacement_plan(a, &names(&[]))).unwrap();
    assert_eq!(cellar.grapes_for(a), names(&[]));
    let plan = vec![
        Statement::DeleteGrapes(b),
        Statement::InsertGrape(b, "Syrah".to_string()),
        Statement::InsertGrape(99, "Syrah".to_string()),
    ];
    let e = cellar.transact(&plan).unwrap_err();
    assert_eq!(e.kind, ErrorKind::NotFound);
    assert_eq!(cellar.grapes_for(b), names(&["Gamay"]));
    let e = cellar.transact(&replacement_plan(99, &names(&["Syrah"]))).unwrap_err();
    assert_eq!(e.kind, ErrorKind::NotFound);
    cellar.transact(&Vec::new()).unwrap();
    assert_eq!(cellar.grapes_for(b), names(&["Gamay"]));
}

#[test]
fn a_duplicate_holds_the_same_and_is_its_own() {
    let (mut cellar, a, b) = stocked_cellar();
    let copy = cellar.duplicate();
    cellar.delete_wine(a);
    assert_eq!(seen(&copy, a), (true, 12, 1, 1, names(&["Nebbiolo"])));
    assert_eq!(seen(&copy, b), seen(&cellar, b));
    assert_eq!(copy.wine_count(), 2);
}

#[test]
fn the_overview_behind_a_filter_shows_the_wines_that_match() {
    let (mut cellar, a, b) = cellar_with_two_wines();
    let c = cellar.add_wine("Barbera d'Asti", 2020).unwrap();
    let d = cellar.add_wine("Smaragd", 2021).unwrap();
    cellar.replace_grapes(a, &names(&["Nebbiolo"])).unwrap();
    cellar.replace_grapes(c, &names(&["Barbera", "Nebbiolo"])).unwrap();
    cellar.replace_grapes(d, &names(&["Grüner Veltliner"])).unwrap();
    cellar.purchase_at(c, 4, date(2024, 1, 1), noon()).unwrap();
    let ids = |filter: Option<&str>| -> Vec<i64> {
        cellar.wine_table_with_grape(filter).iter().map(|l| l.id).collect()
    };
    assert_eq!(ids(None), vec![a, b, c, d]);
    assert_eq!(ids(Some("")), vec![a, b, c, d]);
    assert_eq!(ids(Some("bar")), vec![c]);
    assert_eq!(ids(Some("BAR")), vec![c]);
    assert_eq!(ids(Some("Barb")), vec![c]);
    assert_eq!(ids(Some("arbera")), Vec::<i64>::new());
    assert_eq!(ids(Some("neb")), vec![a, c]);
    assert_eq!(ids(Some("GRÜ")), vec![d]);
    let lines = cellar.wine_table_with_grape(Some("bar"));
    assert_eq!((lines[0].name.as_str(), lines[0].num_bottles), ("Barbera d'Asti", 4));
    assert_eq!(lines[0].grapes, names(&["Barbera", "Nebbiolo"]));
    assert_eq!(cellar.wines_with_grape("grü"), vec![d]);
}
