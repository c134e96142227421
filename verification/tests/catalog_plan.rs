use vmsa_test::args::Target;
use vmsa_test::catalog_plan::{plan, validate, BootPlan};

const REGISTRY: &str = r#"
// The typed registry: index, name, builder, then one handler per target.
pub const CASES: &[Row] = &[
    0, "map_basic", case(IsolationRequirement::Sequential), (none), (secure_map), (none), (none), (root_map);
    1, "destroy_world", case(IsolationRequirement::DestructiveBoot, true), (a), (b), (c), (d), (e);
    2, "separate_one", case(IsolationRequirement::SeparateBoot), (a), (b), (none), (none), (none);
    3, "map_second", case(IsolationRequirement::Sequential), (none), (secure_map2), (none), (none), (none);
];
"#;

fn boot(filter: Option<&str>, expects_termination: bool) -> BootPlan {
    BootPlan {
        filter: filter.map(str::to_owned),
        expects_termination,
    }
}

#[test]
fn accepts_a_consistent_registry() {
    assert_eq!(validate(REGISTRY), Ok(()));
}

#[test]
fn one_sequential_boot_then_one_boot_per_isolated_case() {
    assert_eq!(
        plan(REGISTRY, Target::SecureEl2, None),
        Ok(vec![
            boot(None, false),
            boot(Some("destroy_world"), true),
            boot(Some("separate_one"), false),
        ])
    );
}

#[test]
fn no_sequential_boot_without_a_sequential_case() {
    assert_eq!(
        plan(REGISTRY, Target::NsEl2, None),
        Ok(vec![boot(Some("destroy_world"), true), boot(Some("separate_one"), false)])
    );
}

#[test]
fn filter_selects_by_substring_and_is_passed_on() {
    assert_eq!(plan(REGISTRY, Target::SecureEl2, Some("map")), Ok(vec![boot(Some("map"), false)]));
    assert_eq!(plan(REGISTRY, Target::RootEl3, Some("world")), Ok(vec![boot(Some("destroy_world"), true)]));
}

#[test]
fn nothing_selected_gives_no_boot() {
    assert_eq!(plan(REGISTRY, Target::RealmEl2, Some("zzz")), Ok(vec![]));
}

#[test]
fn lines_that_are_not_rows_are_ignored() {
    let text = "no quote here), (x);\n\"quoted\" but no pair;\n\"x\", (a), (b) without end";
    assert_eq!(plan(text, Target::NsEl2, None), Ok(vec![]));
    assert_eq!(validate(text), Err("typed registry contains no logical tests".to_string()));
}

#[test]
fn rejects_case_without_handler() {
    let text = "0, \"lonely\", case(IsolationRequirement::Sequential), (none), (none), (none), (none), (none);";
    assert_eq!(validate(text), Err("registry case lonely has no adapter handler".to_string()));
}

#[test]
fn rejects_duplicate_case() {
    let text = "0, \"twice\", case(x), (a), (none), (none), (none), (none);\n\
                1, \"twice\", case(x), (a), (none), (none), (none), (none);";
    assert_eq!(validate(text), Err("duplicate registry case twice".to_string()));
}

#[test]
fn rejects_inconsistent_destructive_metadata() {
    let text = "0, \"ender\", case(IsolationRequirement::DestructiveBoot, false), (a), (b), (c), (d), (e);";
    assert_eq!(
        validate(text),
        Err("registry case ender has inconsistent destructive termination metadata".to_string())
    );
}

#[test]
fn rejects_row_with_wrong_field_count() {
    let line = "0, \"short\", case(x), (a), (b), (c), (d);";
    assert_eq!(
        validate(line),
        Err(format!("registry row has 7 fields rather than 8: {line}"))
    );
    assert_eq!(
        plan(line, Target::NsEl2, None),
        Err(format!("registry row has 7 fields rather than 8: {line}"))
    );
}

#[test]
fn rejects_row_with_unquoted_name() {
    let line = "0, name, case(\"x\"), (a), (b), (c), (d), (e);";
    assert_eq!(validate(line), Err(format!("registry row has invalid name: {line}")));
}

#[test]
fn rejects_unbalanced_and_unterminated_rows() {
    let unbalanced = "0, \"n\")), (a), (b), (c), (d), (e), (f);";
    assert_eq!(
        validate(unbalanced),
        Err("unbalanced registry row: 0, \"n\")), (a), (b), (c), (d), (e), (f)".to_string())
    );
    let unterminated = "0, \"n, (a), (b), (c), (d), (e), (f);";
    assert_eq!(
        validate(unterminated),
        Err("unterminated registry row: 0, \"n, (a), (b), (c), (d), (e), (f)".to_string())
    );
}

#[test]
fn escaped_quote_stays_inside_the_name() {
    let text = "0, \"say \\\"hi\\\", ok\", case(x), (a), (none), (none), (none), (none);";
    assert_eq!(validate(text), Ok(()));
    assert_eq!(plan(text, Target::NsEl2, None), Ok(vec![boot(None, false)]));
}
