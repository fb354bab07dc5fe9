use engine_core::{
    CompareOp, FilterExpr, FilterValue, JsonNumber, JsonValue, Order, OrderBy, QueryDescriptor,
    QueryResult, QueryResultRow, Scalar, SortDirection,
};

fn num(x: f64) -> Scalar {
    Scalar::from_bits(x.to_bits())
}

#[test]
fn test_compare_op_numbers() {
    assert!(CompareOp::Eq.compare(&5, &5));
    assert!(!CompareOp::Eq.compare(&5, &6));
    assert!(CompareOp::Ne.compare(&5, &6));
    assert!(CompareOp::Lt.compare(&5, &6));
    assert!(CompareOp::Le.compare(&5, &5));
    assert!(CompareOp::Gt.compare(&6, &5));
    assert!(CompareOp::Ge.compare(&5, &5));
}

#[test]
fn test_compare_values() {
    let a = FilterValue::Number(num(5.0));
    let b = FilterValue::Number(num(10.0));
    assert!(CompareOp::Lt.compare_values(&a, &b));
    assert!(!CompareOp::Gt.compare_values(&a, &b));

    let s1 = FilterValue::String("abc".to_string());
    let s2 = FilterValue::String("def".to_string());
    assert!(CompareOp::Lt.compare_values(&s1, &s2));
}

#[test]
fn test_filter_value_accessors() {
    let n = FilterValue::Number(num(42.0));
    assert_eq!(n.as_f64(), Some(num(42.0)));
    assert_eq!(n.as_str(), None);

    let s = FilterValue::String("hello".to_string());
    assert_eq!(s.as_str(), Some("hello"));
    assert_eq!(s.as_f64(), None);

    let b = FilterValue::Bool(true);
    assert_eq!(b.as_bool(), Some(true));

    let null = FilterValue::Null;
    assert!(null.is_null());
}

#[test]
fn test_filter_expr_builders() {
    let f = FilterExpr::lt("health", FilterValue::Number(num(50.0)));
    assert_eq!(f.field, "health");
    assert_eq!(f.op, CompareOp::Lt);
    assert_eq!(f.value.as_f64(), Some(num(50.0)));
}

#[test]
fn test_order_by() {
    let asc = OrderBy::asc("name");
    assert_eq!(asc.field, "name");
    assert_eq!(asc.direction, SortDirection::Asc);

    let desc = OrderBy::desc("score");
    assert_eq!(desc.direction, SortDirection::Desc);
}

#[test]
fn test_query_descriptor_builder() {
    let query = QueryDescriptor::new()
        .select(["name", "health"])
        .with(["Enemy", "Health"])
        .without(["Dead"])
        .filter(FilterExpr::lt("health", FilterValue::Number(num(50.0))))
        .order_by(OrderBy::asc("health"))
        .limit(10);

    assert_eq!(query.select, vec!["name", "health"]);
    assert_eq!(query.with_components, vec!["Enemy", "Health"]);
    assert_eq!(query.without_components, vec!["Dead"]);
    assert_eq!(query.filters.len(), 1);
    assert!(query.order_by.is_some());
    assert_eq!(query.limit, Some(10));
}

#[test]
fn every_builder_sets_its_operator() {
    let v = FilterValue::Null;
    assert_eq!(FilterExpr::eq("f", v.clone()).op, CompareOp::Eq);
    assert_eq!(FilterExpr::ne("f", v.clone()).op, CompareOp::Ne);
    assert_eq!(FilterExpr::lt("f", v.clone()).op, CompareOp::Lt);
    assert_eq!(FilterExpr::le("f", v.clone()).op, CompareOp::Le);
    assert_eq!(FilterExpr::gt("f", v.clone()).op, CompareOp::Gt);
    assert_eq!(FilterExpr::ge("f", v.clone()).op, CompareOp::Ge);
    let e = FilterExpr::new(String::from("g"), CompareOp::Ge, FilterValue::Bool(true));
    assert_eq!(e.field, "g");
    assert_eq!(e.value, FilterValue::Bool(true));
}

#[test]
fn operators_have_their_wire_symbols() {
    let all = [
        (CompareOp::Eq, "=="),
        (CompareOp::Ne, "!="),
        (CompareOp::Lt, "<"),
        (CompareOp::Le, "<="),
        (CompareOp::Gt, ">"),
        (CompareOp::Ge, ">="),
    ];
    for (op, symbol) in all {
        assert_eq!(op.symbol(), symbol);
        assert_eq!(CompareOp::from_symbol(symbol), Some(op));
    }
    assert_eq!(CompareOp::from_symbol("="), None);
    assert_eq!(CompareOp::from_symbol("=>"), None);
    assert_eq!(CompareOp::from_symbol(""), None);
}

#[test]
fn directions_have_their_wire_names() {
    assert_eq!(SortDirection::Asc.name(), "asc");
    assert_eq!(SortDirection::Desc.name(), "desc");
    assert_eq!(SortDirection::from_name("asc"), Some(SortDirection::Asc));
    assert_eq!(SortDirection::from_name("desc"), Some(SortDirection::Desc));
    assert_eq!(SortDirection::from_name("ASC"), None);
    assert_eq!(SortDirection::default(), SortDirection::Asc);
}

#[test]
fn decides_follows_the_order() {
    let orders = [Some(Order::Less), Some(Order::Equal), Some(Order::Greater), None];
    let expected = [
        (CompareOp::Eq, [false, true, false, false]),
        (CompareOp::Ne, [true, false, true, true]),
        (CompareOp::Lt, [true, false, false, false]),
        (CompareOp::Le, [true, true, false, false]),
        (CompareOp::Gt, [false, false, true, false]),
        (CompareOp::Ge, [false, true, true, false]),
    ];
    for (op, row) in expected {
        for i in 0..4 {
            assert_eq!(op.decides(orders[i]), row[i]);
        }
    }
}

#[test]
fn numbers_compare_as_ieee_numbers_do() {
    let values = [
        f64::NEG_INFINITY,
        -5.0,
        -0.0,
        0.0,
        5e-324,
        1.0,
        2.5,
        f64::MAX,
        f64::INFINITY,
        f64::NAN,
    ];
    for a in values {
        for b in values {
            let l = FilterValue::Number(num(a));
            let r = FilterValue::Number(num(b));
            assert_eq!(CompareOp::Eq.compare_values(&l, &r), a == b);
            assert_eq!(CompareOp::Ne.compare_values(&l, &r), a != b);
            assert_eq!(CompareOp::Lt.compare_values(&l, &r), a < b);
            assert_eq!(CompareOp::Le.compare_values(&l, &r), a <= b);
            assert_eq!(CompareOp::Gt.compare_values(&l, &r), a > b);
            assert_eq!(CompareOp::Ge.compare_values(&l, &r), a >= b);
            assert_eq!(CompareOp::Lt.compare(&num(a), &num(b)), a < b);
            assert_eq!(l == r, a == b);
        }
    }
}

#[test]
fn strings_compare_as_strings_do() {
    let values = ["", "a", "ab", "abc", "b", "B", "é", "日本", "z\u{10FFFF}"];
    for a in values {
        for b in values {
            let l = FilterValue::String(a.to_string());
            let r = FilterValue::String(b.to_string());
            assert_eq!(CompareOp::Eq.compare_values(&l, &r), a == b);
            assert_eq!(CompareOp::Ne.compare_values(&l, &r), a != b);
            assert_eq!(CompareOp::Lt.compare_values(&l, &r), a < b);
            assert_eq!(CompareOp::Le.compare_values(&l, &r), a <= b);
            assert_eq!(CompareOp::Gt.compare_values(&l, &r), a > b);
            assert_eq!(CompareOp::Ge.compare_values(&l, &r), a >= b);
        }
    }
}

#[test]
fn truth_values_compare_with_false_below_true() {
    for a in [false, true] {
        for b in [false, true] {
            let l = FilterValue::Bool(a);
            let r = FilterValue::Bool(b);
            assert_eq!(CompareOp::Eq.compare_values(&l, &r), a == b);
            assert_eq!(CompareOp::Ne.compare_values(&l, &r), a != b);
            assert_eq!(CompareOp::Lt.compare_values(&l, &r), a < b);
            assert_eq!(CompareOp::Le.compare_values(&l, &r), a <= b);
            assert_eq!(CompareOp::Gt.compare_values(&l, &r), a > b);
            assert_eq!(CompareOp::Ge.compare_values(&l, &r), a >= b);
        }
    }
}

#[test]
fn null_equals_null_and_nothing_else_holds_of_it() {
    let null = FilterValue::Null;
    assert!(CompareOp::Eq.compare_values(&null, &null));
    for op in [CompareOp::Ne, CompareOp::Lt, CompareOp::Le, CompareOp::Gt, CompareOp::Ge] {
        assert!(!op.compare_values(&null, &null));
    }
}

#[test]
fn values_of_different_kinds_satisfy_no_operator() {
    let values = [
        FilterValue::Number(num(1.0)),
        FilterValue::String("1".to_string()),
        FilterValue::Bool(true),
        FilterValue::Null,
    ];
    let ops = [
        CompareOp::Eq,
        CompareOp::Ne,
        CompareOp::Lt,
        CompareOp::Le,
        CompareOp::Gt,
        CompareOp::Ge,
    ];
    for i in 0..values.len() {
        for j in 0..values.len() {
            if i != j {
                for op in ops {
                    assert!(!op.compare_values(&values[i], &values[j]));
                }
                assert!(values[i] != values[j]);
            }
        }
    }
}

#[test]
fn filter_values_read_from_json_and_back() {
    assert_eq!(
        FilterValue::from_json(JsonValue::Number(JsonNumber::Real(num(2.5)))),
        FilterValue::Number(num(2.5))
    );
    assert_eq!(
        FilterValue::from_json(JsonValue::Number(JsonNumber::Unsigned(7))),
        FilterValue::Number(num(7.0))
    );
    assert_eq!(
        FilterValue::from_json(JsonValue::String("s".to_string())),
        FilterValue::String("s".to_string())
    );
    assert_eq!(FilterValue::from_json(JsonValue::Bool(false)), FilterValue::Bool(false));
    assert_eq!(FilterValue::from_json(JsonValue::Null), FilterValue::Null);
    assert_eq!(
        FilterValue::from_json(JsonValue::Object(vec![(
            "x".to_string(),
            Some(JsonNumber::Real(num(1.0)))
        )])),
        FilterValue::Null
    );

    assert_eq!(
        FilterValue::Number(num(2.5)).to_json(),
        JsonValue::Number(JsonNumber::Real(num(2.5)))
    );
    assert_eq!(FilterValue::Number(num(f64::NAN)).to_json(), JsonValue::Null);
    assert_eq!(FilterValue::Number(num(f64::INFINITY)).to_json(), JsonValue::Null);
    assert_eq!(
        FilterValue::String("s".to_string()).to_json(),
        JsonValue::String("s".to_string())
    );
    assert_eq!(FilterValue::Bool(true).to_json(), JsonValue::Bool(true));
    assert_eq!(FilterValue::Null.to_json(), JsonValue::Null);
}

#[test]
fn single_components_are_added_at_the_end() {
    let query = QueryDescriptor::new()
        .with(["A"])
        .with_component("B")
        .with_component(String::from("C"))
        .without_component("D")
        .without_component("E");
    assert_eq!(query.with_components, vec!["A", "B", "C"]);
    assert_eq!(query.without_components, vec!["D", "E"]);
    assert!(query.select.is_empty());
    assert!(query.filters.is_empty());
    assert!(query.order_by.is_none());
    assert_eq!(query.limit, None);
}

#[test]
fn setters_replace_and_filters_accumulate() {
    let query = QueryDescriptor::new()
        .select(["a"])
        .select(["b", "c"])
        .with(["X"])
        .with(["Y"])
        .without(["P"])
        .without(["Q"])
        .filter(FilterExpr::eq("f", FilterValue::Null))
        .filter(FilterExpr::ne("g", FilterValue::Bool(true)))
        .limit(1)
        .limit(2);
    assert_eq!(query.select, vec!["b", "c"]);
    assert_eq!(query.with_components, vec!["Y"]);
    assert_eq!(query.without_components, vec!["Q"]);
    assert_eq!(query.filters.len(), 2);
    assert_eq!(query.filters[0].field, "f");
    assert_eq!(query.filters[1].field, "g");
    assert_eq!(query.limit, Some(2));
}

#[test]
fn rows_keep_one_value_for_each_field() {
    let mut row = QueryResultRow::new(9);
    assert_eq!(row.id, 9);
    assert_eq!(row.get_field("a"), None);
    row.set_field("a", JsonValue::Bool(true));
    row.set_field("b", JsonValue::Null);
    row.set_field("a", JsonValue::Bool(false));
    assert_eq!(row.get_field("a"), Some(&JsonValue::Bool(false)));
    assert_eq!(row.get_field("b"), Some(&JsonValue::Null));
    assert_eq!(row.get_field("c"), None);
    assert_eq!(row.fields.len(), 2);
    let row = row.with_field(String::from("c"), JsonValue::from_u32(3));
    assert_eq!(row.get_field("c"), Some(&JsonValue::Number(JsonNumber::Unsigned(3))));
    assert_eq!(row.fields.len(), 3);
    assert_eq!(row.fields.entry(0), Some(("a", &JsonValue::Bool(false))));
    assert_eq!(row.fields.entry(2), Some(("c", &JsonValue::Number(JsonNumber::Unsigned(3)))));
    assert_eq!(row.fields.entry(3), None);
}

#[test]
fn the_empty_result_has_no_rows() {
    let result = QueryResult::empty();
    assert_eq!(result.len(), 0);
    assert!(result.is_empty());
    assert_eq!(result.total_count, 0);
    assert!(result.iter().is_empty());
    assert_eq!(QueryResult::default(), result);
}

#[test]
fn iter_gives_the_rows_in_order() {
    let result = QueryResult {
        rows: vec![QueryResultRow::new(1), QueryResultRow::new(2)],
        total_count: 5,
    };
    let rows = result.iter();
    assert_eq!(rows.len(), 2);
    assert_eq!(rows[0].id, 1);
    assert_eq!(rows[1].id, 2);
    assert_eq!(result.len(), 2);
    assert!(!result.is_empty());
}

#[test]
fn rows_are_equal_whatever_the_order_of_their_fields() {
    let a = QueryResultRow::new(1)
        .with_field("x", JsonValue::from_u32(1))
        .with_field("y", JsonValue::Bool(true));
    let b = QueryResultRow::new(1)
        .with_field("y", JsonValue::Bool(true))
        .with_field("x", JsonValue::from_u32(1));
    assert_eq!(a, b);
    let c = QueryResultRow::new(2)
        .with_field("y", JsonValue::Bool(true))
        .with_field("x", JsonValue::from_u32(1));
    assert_ne!(a, c);
}
