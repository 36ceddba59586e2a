use wine_cellar::form::{parse_selected, selected_values, values_of_decoded};
use wine_cellar::error::ErrorKind;
use wine_cellar::grapes::{grape_choices, has_grape_with_prefix, is_selected};
use wine_cellar::text::{chars_of, contains, lowered_chars, starts_with_ignoring_case, starts_with_lowered, text_equal};

fn names(list: &[&str]) -> Vec<String> {
    list.iter().map(|s| s.to_string()).collect()
}

#[test]
fn the_characters_of_a_text_are_listed() {
    assert_eq!(chars_of("Grüner"), vec!['G', 'r', 'ü', 'n', 'e', 'r']);
    assert_eq!(chars_of(""), Vec::<char>::new());
}

#[test]
fn a_text_is_found_where_it_stands() {
    assert!(contains("Mozilla/5.0 (iPhone; CPU iPhone OS 17_0 like Mac OS X)", "iPhone"));
    assert!(contains("iPhone", "iPhone"));
    assert!(contains("xxiPhone", "iPhone"));
    assert!(contains("anything", ""));
    assert!(contains("", ""));
    assert!(!contains("Mozilla/5.0 (X11; Linux x86_64)", "iPhone"));
    assert!(!contains("iphone", "iPhone"));
    assert!(!contains("iPhon", "iPhone"));
    assert!(!contains("", "iPhone"));
    assert!(!contains("iPiPhon", "iPhone"));
    assert!(contains("iPiPhone", "iPhone"));
}

#[test]
fn the_lower_case_form_knows_every_alphabet() {
    assert_eq!(lowered_chars("BAR"), vec!['b', 'a', 'r']);
    assert_eq!(lowered_chars("Grüner"), vec!['g', 'r', 'ü', 'n', 'e', 'r']);
    assert_eq!(lowered_chars("GRÜNER"), vec!['g', 'r', 'ü', 'n', 'e', 'r']);
    assert_eq!(lowered_chars("MOURVÈDRE"), lowered_chars("mourvèdre"));
    assert_eq!(lowered_chars("Ξινόμαυρο"), lowered_chars("ξινόμαυρο"));
    assert_eq!(lowered_chars("7 @["), vec!['7', ' ', '@', '[']);
    assert_eq!(lowered_chars(""), Vec::<char>::new());
}

#[test]
fn a_lowered_prefix_is_looked_for_in_the_lowered_name() {
    assert!(starts_with_lowered("Barbera", &vec!['b', 'a', 'r']));
    assert!(starts_with_lowered("BARBERA", &vec![]));
    assert!(!starts_with_lowered("Barbera", &vec!['B', 'a', 'r']));
    assert!(!starts_with_lowered("Ba", &vec!['b', 'a', 'r']));
}

#[test]
fn grape_filter_matches_prefix_without_regard_to_case() {
    assert!(starts_with_ignoring_case("Barbera", "bar"));
    assert!(starts_with_ignoring_case("Barbera", "BAR"));
    assert!(starts_with_ignoring_case("Barbera", "Barb"));
    assert!(!starts_with_ignoring_case("Barbera", "arbera"));
    assert!(starts_with_ignoring_case("Barbera", ""));
    assert!(starts_with_ignoring_case("Barbera", "BARBERA"));
    assert!(!starts_with_ignoring_case("Barbera", "Barberas"));
    assert!(!starts_with_ignoring_case("", "b"));
    assert!(starts_with_ignoring_case("Grüner Veltliner", "grü"));
    assert!(starts_with_ignoring_case("Grüner Veltliner", "GRÜ"));
    assert!(starts_with_ignoring_case("GRÜNER VELTLINER", "grüner v"));
    assert!(!starts_with_ignoring_case("Grüner Veltliner", "gru"));
    assert!(starts_with_ignoring_case("Mourvèdre", "MOURVÈ"));
}

#[test]
fn a_wine_matches_if_one_of_its_grapes_does() {
    let grapes = names(&["Nebbiolo", "Barbera"]);
    assert!(has_grape_with_prefix(&grapes, "bar"));
    assert!(has_grape_with_prefix(&grapes, "BAR"));
    assert!(has_grape_with_prefix(&grapes, "Barb"));
    assert!(has_grape_with_prefix(&grapes, "neb"));
    assert!(!has_grape_with_prefix(&grapes, "arbera"));
    assert!(!has_grape_with_prefix(&grapes, "gamay"));
    assert!(!has_grape_with_prefix(&names(&[]), ""));
    assert!(has_grape_with_prefix(&grapes, ""));
}

#[test]
fn a_grape_is_selected_if_it_is_named_exactly() {
    let chosen = names(&["Barbera", "Gamay"]);
    assert!(is_selected(&chosen, "Gamay"));
    assert!(is_selected(&chosen, "Barbera"));
    assert!(!is_selected(&chosen, "gamay"));
    assert!(!is_selected(&chosen, "Gam"));
    assert!(!is_selected(&chosen, ""));
    assert!(text_equal("", ""));
    assert!(text_equal("Syrah", "Syrah"));
    assert!(!text_equal("Syrah", "Syrak"));
    assert!(!text_equal("Syrah", "Syra"));
}

#[test]
fn the_values_of_a_form_are_read_in_order() {
    assert_eq!(selected_values("grapes=Barbera&grapes=Gamay"), names(&["Barbera", "Gamay"]));
    assert_eq!(selected_values("grapes=Barbera"), names(&["Barbera"]));
    assert_eq!(selected_values(""), names(&[]));
    assert_eq!(selected_values("grapes"), names(&[]));
    assert_eq!(selected_values("grapes="), names(&[""]));
    assert_eq!(selected_values("a=b=c"), names(&["b"]));
    assert_eq!(selected_values("&&x=1&y&=2&"), names(&["1", "2"]));
    assert_eq!(selected_values("other=1&grapes=Pinot Noir"), names(&["1", "Pinot Noir"]));
    assert_eq!(selected_values("g=Grüner Veltliner&g=Mourvèdre"), names(&["Grüner Veltliner", "Mourvèdre"]));
}

#[test]
fn a_raw_form_is_percent_decoded_first() {
    assert_eq!(parse_selected(b"grapes=Barbera&grapes=Gamay").unwrap(), names(&["Barbera", "Gamay"]));
    assert_eq!(parse_selected(b"grapes=Pinot%20Noir").unwrap(), names(&["Pinot Noir"]));
    assert_eq!(parse_selected(b"grapes=Gr%C3%BCner%20Veltliner").unwrap(), names(&["Grüner Veltliner"]));
    assert_eq!(parse_selected(b"grapes=100%").unwrap(), names(&["100%"]));
    assert_eq!(parse_selected(b"grapes=%zz&grapes=%4").unwrap(), names(&["%zz", "%4"]));
    assert_eq!(parse_selected(b"grapes=%41%6a%6A").unwrap(), names(&["Ajj"]));
    // an encoded separator takes effect, because decoding comes first
    assert_eq!(parse_selected(b"grapes=a%26b=c").unwrap(), names(&["a", "c"]));
    assert_eq!(parse_selected(b"grapes=Pinot+Noir").unwrap(), names(&["Pinot+Noir"]));
    assert_eq!(parse_selected(b"").unwrap(), names(&[]));
}

#[test]
fn a_form_that_is_no_text_is_invalid_input() {
    for form in [&b"grapes=%FF"[..], &b"grapes=\xC3"[..], &b"%C3%28"[..]] {
        let e = parse_selected(form).unwrap_err();
        assert_eq!(e.kind, ErrorKind::InvalidInput);
        assert_eq!(e.message, "form is not valid UTF-8");
    }
    let e = values_of_decoded(None).unwrap_err();
    assert_eq!(e.kind, ErrorKind::InvalidInput);
    assert_eq!(values_of_decoded(Some("k=v".to_string())).unwrap(), names(&["v"]));
}

#[test]
fn the_form_of_choices_checks_the_grapes_of_the_wine() {
    let catalog = names(&["Barbera", "Gamay", "Nebbiolo"]);
    let choices = grape_choices(&catalog, &names(&["Nebbiolo", "Barbera", "Unknown"]));
    let shown: Vec<(&str, bool)> = choices.iter().map(|c| (c.name.as_str(), c.checked)).collect();
    assert_eq!(shown, vec![("Barbera", true), ("Gamay", false), ("Nebbiolo", true)]);
    assert_eq!(grape_choices(&names(&[]), &catalog).len(), 0);
    assert!(grape_choices(&catalog, &names(&[])).iter().all(|c| !c.checked));
}
