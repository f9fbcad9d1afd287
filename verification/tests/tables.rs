use uss_core::uss_data::{get_element_names, get_property_names, get_pseudo_class_names};

#[test]
fn property_table_has_the_known_properties() {
    let names = get_property_names();
    assert_eq!(names.len(), 81);
    assert!(names.contains(&"flex-direction"));
    assert!(names.contains(&"width"));
    assert!(names.contains(&"color"));
    assert!(names.contains(&"background-color"));
    assert!(!names.contains(&"colr"));
}

#[test]
fn element_table_has_the_known_elements() {
    let names = get_element_names();
    assert_eq!(names.len(), 55);
    assert!(names.contains(&"VisualElement"));
    assert!(names.contains(&"Button"));
    assert!(names.contains(&"Label"));
}

#[test]
fn pseudo_class_table_has_the_known_pseudo_classes() {
    let names = get_pseudo_class_names();
    assert_eq!(names.len(), 10);
    assert!(names.contains(&"hover"));
    assert!(names.contains(&"active"));
    assert!(names.contains(&"checked"));
}

#[test]
fn tables_hold_no_duplicates() {
    for names in [get_property_names(), get_element_names(), get_pseudo_class_names()] {
        let mut seen: Vec<&str> = Vec::new();
        for n in names {
            assert!(!seen.contains(&n));
            seen.push(n);
        }
    }
}
