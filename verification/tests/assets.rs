use dynamic_diagram::assets::icons::{all, get, Icon, IconTables};

const MATERIAL: &str = "# material symbols\nhome\tM0 0\nhome\tM1 1\r\n\nstar\tS 2\n";
const CLOUD: &str = "aws/x\t0 0 24 24\t<g/>\nbad\tonly-two\ncf/r2\t0 0 8 8\t<path/>\t<rect/>\n";
const TABLER: &str = "home\tT1\nbolt\tB\n";

fn tables() -> IconTables {
    IconTables::parse(MATERIAL, CLOUD, TABLER)
}

fn path_of(icon: Option<Icon>) -> String {
    match icon {
        Some(Icon::Path(d)) => format!("path:{d}"),
        Some(Icon::Stroke(d)) => format!("stroke:{d}"),
        Some(Icon::Svg(vb, inner)) => format!("svg:{vb}|{inner}"),
        None => "none".to_string(),
    }
}

#[test]
fn material_name_uses_its_last_entry_without_carriage_return() {
    assert_eq!(path_of(get(&tables(), "home")), "path:M1 1");
}

#[test]
fn ti_prefix_forces_the_stroke_table() {
    assert_eq!(path_of(get(&tables(), "ti/home")), "stroke:T1");
    assert_eq!(path_of(get(&tables(), "ti/star")), "none");
}

#[test]
fn names_missing_from_material_fall_back_to_stroke_icons() {
    assert_eq!(path_of(get(&tables(), "bolt")), "stroke:B");
}

#[test]
fn cloud_icons_come_first_and_keep_tabs_in_their_content() {
    assert_eq!(path_of(get(&tables(), "aws/x")), "svg:0 0 24 24|<g/>");
    assert_eq!(path_of(get(&tables(), "cf/r2")), "svg:0 0 8 8|<path/>\t<rect/>");
}

#[test]
fn short_service_names_resolve_to_cloud_icons() {
    assert_eq!(path_of(get(&tables(), "r2")), "svg:0 0 8 8|<path/>\t<rect/>");
    assert_eq!(path_of(get(&tables(), "ec2")), "none");
}

#[test]
fn incomplete_cloud_lines_and_unknown_names_give_nothing() {
    assert_eq!(path_of(get(&tables(), "bad")), "none");
    assert_eq!(path_of(get(&tables(), "nothing")), "none");
    assert_eq!(path_of(get(&tables(), "")), "none");
}

#[test]
fn all_lists_each_name_once_sorted_with_stroke_prefix() {
    assert_eq!(all(&tables()), vec!["aws/x", "cf/r2", "home", "star", "ti/bolt", "ti/home"]);
}

#[test]
fn empty_tables_have_no_icons() {
    let t = IconTables::parse("", "", "");
    assert!(all(&t).is_empty());
    assert_eq!(path_of(get(&t, "home")), "none");
}

#[test]
fn every_listed_name_resolves_and_an_alias_matches_its_target() {
    let t = tables();
    for name in all(&t) {
        assert!(get(&t, &name).is_some(), "{name} is listed but gives no icon");
    }
    assert_eq!(path_of(get(&t, "r2")), path_of(get(&t, "cf/r2")));
}
