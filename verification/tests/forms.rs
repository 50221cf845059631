use pdf_ast::forms::acroform::{count_fields_in_acroform, has_hybrid_forms, FormDict, FormValue};

fn dict(has_t: bool, has_ft: bool, kids: Option<FormValue>) -> FormValue {
    FormValue::Dictionary(FormDict { has_t, has_ft, kids: kids.map(Box::new) })
}

#[test]
fn count_fields_simple() {
    // A field with T = (Field1) and FT = /Tx.
    let fields = FormValue::Array(vec![dict(true, true, None)]);
    let stats = count_fields_in_acroform(Some(&fields));
    assert_eq!(stats.field_count, 1);
}

#[test]
fn count_fields_nested_kids() {
    // A parent whose Kids hold a child with T = (Child).
    let child = dict(true, false, None);
    let parent = dict(false, false, Some(FormValue::Array(vec![child])));
    let fields = FormValue::Array(vec![parent]);
    let stats = count_fields_in_acroform(Some(&fields));
    assert_eq!(stats.field_count, 2);
}

#[test]
fn hybrid_forms_detection() {
    let fields = FormValue::Array(vec![dict(true, false, None)]);
    assert!(has_hybrid_forms(true, Some(&fields)));
    assert!(!has_hybrid_forms(false, Some(&fields)));
}

#[test]
fn forms_without_fields_or_too_deep() {
    assert_eq!(count_fields_in_acroform(None).field_count, 0);
    let stats = count_fields_in_acroform(Some(&FormValue::Array(vec![dict(false, false, None), FormValue::Other])));
    assert_eq!(stats.field_count, 0);
    assert!(!stats.has_fields);
    let mut deep = dict(true, false, None);
    for _ in 0..70 {
        deep = FormValue::Array(vec![deep]);
    }
    assert_eq!(count_fields_in_acroform(Some(&deep)).field_count, 0);
    assert!(!has_hybrid_forms(true, None));
}
