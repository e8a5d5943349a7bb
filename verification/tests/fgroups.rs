use rum::fgroups::assemble_map;

#[test]
fn groups_names_by_fingerprint() {
    let lines = vec![
        String::from("f1 Alice"),
        String::from("f1 Bob"),
        String::from("f2\tCarol"),
        String::from("discarded-no-separator"),
        String::from("f1    Dave"),
        String::from("f2 x  "),
    ];
    let groups = assemble_map(lines);
    assert_eq!(groups.len(), 2);
    assert_eq!(groups[0].fingerprint, "f1");
    assert_eq!(groups[0].names, vec!["Alice", "Bob", "Dave"]);
    assert_eq!(groups[1].fingerprint, "f2");
    // Leading whitespace leaves the name; trailing whitespace stays.
    assert_eq!(groups[1].names, vec!["Carol", "x  "]);
}

#[test]
fn empty_name_is_kept() {
    let lines = vec![String::from("f9 ")];
    let groups = assemble_map(lines);
    assert_eq!(groups.len(), 1);
    assert_eq!(groups[0].fingerprint, "f9");
    assert_eq!(groups[0].names, vec![""]);
}
