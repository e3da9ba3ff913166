use tool_router::name::{find_name, ToolName};
use tool_router::samples::find_in_list;

fn names(texts: &[&str]) -> Vec<ToolName> {
    texts.iter().map(|t| ToolName::new(t)).collect()
}

#[test]
fn each_name_is_found_at_its_place() {
    let list = names(&["echo", "memory_set", "memory_get", "", "Echo"]);
    for (i, name) in list.iter().enumerate() {
        assert_eq!(find_name(&list, name), Some(i));
        assert_eq!(find_in_list(&list, name), Some(i));
    }
}

#[test]
fn first_occurrence_of_a_name_wins() {
    let list = names(&["a", "b", "a", "c", "b", "a"]);
    assert_eq!(find_name(&list, &list[2]), Some(0));
    assert_eq!(find_name(&list, &list[5]), Some(0));
    assert_eq!(find_name(&list, &list[4]), Some(1));
    assert_eq!(find_name(&list, &list[3]), Some(3));
    assert_eq!(find_in_list(&list, &ToolName::new("b")), Some(1));
}

#[test]
fn unregistered_name_has_no_place() {
    let list = names(&["echo", "memory_set"]);
    for absent in ["", "ech", "echo ", "ECHO", "memory_get"] {
        assert_eq!(find_name(&list, &ToolName::new(absent)), None);
    }
    let none: Vec<ToolName> = Vec::new();
    assert_eq!(find_name(&none, &ToolName::new("echo")), None);
    assert_eq!(find_in_list(&none, &ToolName::new("")), None);
}

#[test]
fn names_compare_by_text() {
    assert!(ToolName::new("echo") == ToolName::new("echo"));
    assert!(ToolName::new("echo") != ToolName::new("Echo"));
    assert!(ToolName::new("") == ToolName::new(""));
    assert!(ToolName::new("héllo") != ToolName::new("hello"));
    assert_eq!(ToolName::new("x").as_str(), "x");
}
