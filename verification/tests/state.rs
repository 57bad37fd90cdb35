use commander::state::{FuncAction, Side, Sort, SortKey, SortOrder};

#[test]
fn sides_and_orders_flip() {
    assert_eq!(Side::Left.other(), Side::Right);
    assert_eq!(Side::Right.other().other(), Side::Right);
    assert_eq!(SortOrder::Asc.toggled(), SortOrder::Desc);
    assert_eq!(SortOrder::Desc.toggled().toggled(), SortOrder::Desc);
}

#[test]
fn picking_sort_keys() {
    let s = Sort::default();
    assert_eq!(s, Sort { key: SortKey::Name, order: SortOrder::Asc });
    let s2 = s.select(SortKey::Name);
    assert_eq!(s2, Sort { key: SortKey::Name, order: SortOrder::Desc });
    assert_eq!(s2.select(SortKey::Name), s);
    assert_eq!(s2.select(SortKey::Size), Sort { key: SortKey::Size, order: SortOrder::Asc });
    let _ = FuncAction::Quit;
}
