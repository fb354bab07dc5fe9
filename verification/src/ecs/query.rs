//! The query language: what to select, which entities to keep, how to order
//! and how many to return.

use crate::json::{FieldMap, JsonModel, JsonValue};
use crate::scalar::{Order, Scalar};
use crate::text::{order_text, same_text, text_order, Text};
use std::cmp::Ordering;
use vstd::prelude::*;
use vstd::std_specs::cmp::{PartialEqSpec, PartialEqSpecImpl, PartialOrdSpec};

verus! {

/// Comparison operator of a filter.
#[derive(Debug, Clone, Copy, PartialEq, Eq, Structural)]
pub enum CompareOp {
    /// Equal (`==`).
    Eq,
    /// Not equal (`!=`).
    Ne,
    /// Less (`<`).
    Lt,
    /// Less or equal (`<=`).
    Le,
    /// Greater (`>`).
    Gt,
    /// Greater or equal (`>=`).
    Ge,
}

/// How two truth values compare: false is less than true.
pub open spec fn bool_order(a: bool, b: bool) -> Order {
    if a == b {
        Order::Equal
    } else if b {
        Order::Less
    } else {
        Order::Greater
    }
}

impl CompareOp {
    /// Whether the operator holds of two values that compare as `order`
    /// says; `None` stands for values that do not compare, of which only
    /// `!=` holds.
    pub open spec fn spec_decides(&self, order: Option<Order>) -> bool {
        match self {
            CompareOp::Eq => order == Some(Order::Equal),
            CompareOp::Ne => order != Some(Order::Equal),
            CompareOp::Lt => order == Some(Order::Less),
            CompareOp::Le => order == Some(Order::Less) || order == Some(Order::Equal),
            CompareOp::Gt => order == Some(Order::Greater),
            CompareOp::Ge => order == Some(Order::Greater) || order == Some(Order::Equal),
        }
    }

    /// Whether the operator holds of two values that compare as `order` says.
    #[verifier::when_used_as_spec(spec_decides)]
    pub fn decides(&self, order: Option<Order>) -> (r: bool)
        ensures
            r == self.spec_decides(order),
    {
        match self {
            CompareOp::Eq => matches!(order, Some(Order::Equal)),
            CompareOp::Ne => !matches!(order, Some(Order::Equal)),
            CompareOp::Lt => matches!(order, Some(Order::Less)),
            CompareOp::Le => matches!(order, Some(Order::Less) | Some(Order::Equal)),
            CompareOp::Gt => matches!(order, Some(Order::Greater)),
            CompareOp::Ge => matches!(order, Some(Order::Greater) | Some(Order::Equal)),
        }
    }

    /// Whether the operator holds of two values of a type with its own
    /// equality and order.
    pub open spec fn holds_between<T: PartialOrd>(&self, left: &T, right: &T) -> bool {
        match self {
            CompareOp::Eq => left.eq_spec(right),
            CompareOp::Ne => !left.eq_spec(right),
            CompareOp::Lt => left.partial_cmp_spec(right) == Some(Ordering::Less),
            CompareOp::Le => left.partial_cmp_spec(right) == Some(Ordering::Less)
                || left.partial_cmp_spec(right) == Some(Ordering::Equal),
            CompareOp::Gt => left.partial_cmp_spec(right) == Some(Ordering::Greater),
            CompareOp::Ge => left.partial_cmp_spec(right) == Some(Ordering::Greater)
                || left.partial_cmp_spec(right) == Some(Ordering::Equal),
        }
    }

    /// Compares two values with the operator, by the equality and the order
    /// of their type.
    pub fn compare<T: PartialOrd>(&self, left: &T, right: &T) -> (r: bool)
        ensures
            T::obeys_eq_spec() && T::obeys_partial_cmp_spec() ==> r == self.holds_between(
                left,
                right,
            ),
    {
        match self {
            CompareOp::Eq => left == right,
            CompareOp::Ne => left != right,
            CompareOp::Lt => left < right,
            CompareOp::Le => left <= right,
            CompareOp::Gt => left > right,
            CompareOp::Ge => left >= right,
        }
    }

    /// The operator as it is written in the wire format.
    pub fn symbol(&self) -> (r: &'static str)
        ensures
            r@ == self.spec_symbol(),
    {
        match self {
            CompareOp::Eq => "==",
            CompareOp::Ne => "!=",
            CompareOp::Lt => "<",
            CompareOp::Le => "<=",
            CompareOp::Gt => ">",
            CompareOp::Ge => ">=",
        }
    }

    pub open spec fn spec_symbol(&self) -> Seq<char> {
        match self {
            CompareOp::Eq => "=="@,
            CompareOp::Ne => "!="@,
            CompareOp::Lt => "<"@,
            CompareOp::Le => "<="@,
            CompareOp::Gt => ">"@,
            CompareOp::Ge => ">="@,
        }
    }

    /// The operator that a symbol of the wire format stands for.
    pub open spec fn spec_from_symbol(symbol: Seq<char>) -> Option<CompareOp> {
        if symbol == "=="@ {
            Some(CompareOp::Eq)
        } else if symbol == "!="@ {
            Some(CompareOp::Ne)
        } else if symbol == "<"@ {
            Some(CompareOp::Lt)
        } else if symbol == "<="@ {
            Some(CompareOp::Le)
        } else if symbol == ">"@ {
            Some(CompareOp::Gt)
        } else if symbol == ">="@ {
            Some(CompareOp::Ge)
        } else {
            None
        }
    }

    /// Reads an operator as it is written in the wire format.
    pub fn from_symbol(symbol: &str) -> (r: Option<CompareOp>)
        ensures
            r == Self::spec_from_symbol(symbol@),
    {
        if same_text(symbol, "==") {
            Some(CompareOp::Eq)
        } else if same_text(symbol, "!=") {
            Some(CompareOp::Ne)
        } else if same_text(symbol, "<") {
            Some(CompareOp::Lt)
        } else if same_text(symbol, "<=") {
            Some(CompareOp::Le)
        } else if same_text(symbol, ">") {
            Some(CompareOp::Gt)
        } else if same_text(symbol, ">=") {
            Some(CompareOp::Ge)
        } else {
            None
        }
    }
}

/// A literal that a filter compares a field with.
#[derive(Debug, Clone)]
pub enum FilterValue {
    Number(Scalar),
    String(String),
    Bool(bool),
    Null,
}

/// The mathematical content of a [`FilterValue`].
pub ghost enum FilterModel {
    Number(Scalar),
    String(Seq<char>),
    Bool(bool),
    Null,
}

impl View for FilterValue {
    type V = FilterModel;

    open spec fn view(&self) -> FilterModel {
        match self {
            FilterValue::Number(n) => FilterModel::Number(*n),
            FilterValue::String(s) => FilterModel::String(s@),
            FilterValue::Bool(b) => FilterModel::Bool(*b),
            FilterValue::Null => FilterModel::Null,
        }
    }
}

impl FilterModel {
    /// The literal that a JSON-like value reads as: numbers, strings and
    /// truth values as themselves, everything else as null.
    pub open spec fn from_json(value: JsonModel) -> FilterModel {
        match value {
            JsonModel::Number(n) => FilterModel::Number(n.spec_as_scalar()),
            JsonModel::String(s) => FilterModel::String(s),
            JsonModel::Bool(b) => FilterModel::Bool(b),
            _ => FilterModel::Null,
        }
    }

    /// The JSON-like value of a literal; a number that is not finite has
    /// none and becomes null.
    pub open spec fn to_json(self) -> JsonModel {
        match self {
            FilterModel::Number(n) => JsonModel::of_scalar(n),
            FilterModel::String(s) => JsonModel::String(s),
            FilterModel::Bool(b) => JsonModel::Bool(b),
            FilterModel::Null => JsonModel::Null,
        }
    }

    /// Whether two literals are equal: of the same kind and, within it,
    /// equal as numbers, strings or truth values.
    pub open spec fn equals(self, other: FilterModel) -> bool {
        match (self, other) {
            (FilterModel::Number(a), FilterModel::Number(b)) => a.spec_order(&b) == Some(
                Order::Equal,
            ),
            (FilterModel::String(a), FilterModel::String(b)) => a == b,
            (FilterModel::Bool(a), FilterModel::Bool(b)) => a == b,
            (FilterModel::Null, FilterModel::Null) => true,
            _ => false,
        }
    }
}

impl FilterValue {
    /// The number, if the literal is one.
    pub fn as_f64(&self) -> (r: Option<Scalar>)
        ensures
            r == (match self@ {
                FilterModel::Number(n) => Some(n),
                _ => None,
            }),
    {
        match self {
            FilterValue::Number(n) => Some(*n),
            _ => None,
        }
    }

    /// The string, if the literal is one.
    pub fn as_str(&self) -> (r: Option<&str>)
        ensures
            match r {
                Some(s) => self@ == FilterModel::String(s@),
                None => !(self@ is String),
            },
    {
        match self {
            FilterValue::String(s) => Some(s.as_str()),
            _ => None,
        }
    }

    /// The truth value, if the literal is one.
    pub fn as_bool(&self) -> (r: Option<bool>)
        ensures
            r == (match self@ {
                FilterModel::Bool(b) => Some(b),
                _ => None,
            }),
    {
        match self {
            FilterValue::Bool(b) => Some(*b),
            _ => None,
        }
    }

    /// Whether the literal is null.
    pub fn is_null(&self) -> (r: bool)
        ensures
            r == (self@ is Null),
    {
        matches!(self, FilterValue::Null)
    }

    /// Reads a JSON-like value as a literal. Objects read as null.
    pub fn from_json(value: JsonValue) -> (r: Self)
        ensures
            r@ == FilterModel::from_json(value@),
    {
        match value {
            JsonValue::Number(n) => FilterValue::Number(n.as_scalar()),
            JsonValue::String(s) => FilterValue::String(s),
            JsonValue::Bool(b) => FilterValue::Bool(b),
            JsonValue::Null => FilterValue::Null,
            JsonValue::Object(_) => FilterValue::Null,
        }
    }

    /// The literal as a JSON-like value.
    pub fn to_json(&self) -> (r: JsonValue)
        ensures
            r@ == self@.to_json(),
    {
        match self {
            FilterValue::Number(n) => JsonValue::from_scalar(*n),
            FilterValue::String(s) => JsonValue::String(s.clone()),
            FilterValue::Bool(b) => JsonValue::Bool(*b),
            FilterValue::Null => JsonValue::Null,
        }
    }
}

impl PartialEq for FilterValue {
    fn eq(&self, other: &FilterValue) -> (r: bool) {
        match (self, other) {
            (FilterValue::Number(a), FilterValue::Number(b)) => matches!(
                a.order(b),
                Some(Order::Equal)
            ),
            (FilterValue::String(a), FilterValue::String(b)) => same_text(a.as_str(), b.as_str()),
            (FilterValue::Bool(a), FilterValue::Bool(b)) => *a == *b,
            (FilterValue::Null, FilterValue::Null) => true,
            _ => false,
        }
    }
}

impl PartialEqSpecImpl for FilterValue {
    open spec fn obeys_eq_spec() -> bool {
        true
    }

    open spec fn eq_spec(&self, other: &FilterValue) -> bool {
        self@.equals(other@)
    }
}

impl CompareOp {
    /// Whether the operator holds of two literals. Literals of different
    /// kinds satisfy no operator, not even `!=`; two nulls satisfy `==` alone.
    pub open spec fn spec_compare_values(&self, left: FilterModel, right: FilterModel) -> bool {
        match (left, right) {
            (FilterModel::Number(l), FilterModel::Number(r)) => self.spec_decides(
                l.spec_order(&r),
            ),
            (FilterModel::String(l), FilterModel::String(r)) => self.spec_decides(
                Some(text_order(l, r)),
            ),
            (FilterModel::Bool(l), FilterModel::Bool(r)) => self.spec_decides(
                Some(bool_order(l, r)),
            ),
            (FilterModel::Null, FilterModel::Null) => *self == CompareOp::Eq,
            _ => false,
        }
    }

    /// Compares two literals with the operator.
    pub fn compare_values(&self, left: &FilterValue, right: &FilterValue) -> (r: bool)
        ensures
            r == self.spec_compare_values(left@, right@),
    {
        match (left, right) {
            (FilterValue::Number(l), FilterValue::Number(r)) => self.compare(l, r),
            (FilterValue::String(l), FilterValue::String(r)) => self.decides(
                Some(order_text(l.as_str(), r.as_str())),
            ),
            (FilterValue::Bool(l), FilterValue::Bool(r)) => {
                let order = if *l == *r {
                    Order::Equal
                } else if *r {
                    Order::Less
                } else {
                    Order::Greater
                };
                self.decides(Some(order))
            },
            (FilterValue::Null, FilterValue::Null) => matches!(self, CompareOp::Eq),
            _ => false,
        }
    }
}

/// A condition on one field: the field's value, compared by the operator
/// with the literal, must hold.
#[derive(Debug, Clone)]
pub struct FilterExpr {
    /// Name of the field, such as `position.x`.
    pub field: String,
    pub op: CompareOp,
    pub value: FilterValue,
}

impl FilterExpr {
    pub fn new<S: Text>(field: S, op: CompareOp, value: FilterValue) -> (r: Self)
        ensures
            r.field@ == field.text(),
            r.op == op,
            r.value == value,
    {
        FilterExpr { field: field.to_text(), op, value }
    }

    /// The condition `field == value`.
    pub fn eq<S: Text>(field: S, value: FilterValue) -> (r: Self)
        ensures
            r.field@ == field.text(),
            r.op == CompareOp::Eq,
            r.value == value,
    {
        Self::new(field, CompareOp::Eq, value)
    }

    /// The condition `field != value`.
    pub fn ne<S: Text>(field: S, value: FilterValue) -> (r: Self)
        ensures
            r.field@ == field.text(),
            r.op == CompareOp::Ne,
            r.value == value,
    {
        Self::new(field, CompareOp::Ne, value)
    }

    /// The condition `field < value`.
    pub fn lt<S: Text>(field: S, value: FilterValue) -> (r: Self)
        ensures
            r.field@ == field.text(),
            r.op == CompareOp::Lt,
            r.value == value,
    {
        Self::new(field, CompareOp::Lt, value)
    }

    /// The condition `field <= value`.
    pub fn le<S: Text>(field: S, value: FilterValue) -> (r: Self)
        ensures
            r.field@ == field.text(),
            r.op == CompareOp::Le,
            r.value == value,
    {
        Self::new(field, CompareOp::Le, value)
    }

    /// The condition `field > value`.
    pub fn gt<S: Text>(field: S, value: FilterValue) -> (r: Self)
        ensures
            r.field@ == field.text(),
            r.op == CompareOp::Gt,
            r.value == value,
    {
        Self::new(field, CompareOp::Gt, value)
    }

    /// The condition `field >= value`.
    pub fn ge<S: Text>(field: S, value: FilterValue) -> (r: Self)
        ensures
            r.field@ == field.text(),
            r.op == CompareOp::Ge,
            r.value == value,
    {
        Self::new(field, CompareOp::Ge, value)
    }
}

/// A condition on the presence of a component, by the component's name.
#[derive(Debug, Clone)]
pub enum ComponentFilter {
    /// The entity has the component.
    Has(String),
    /// The entity does not have the component.
    Not(String),
}

/// Direction of a sort.
#[derive(Debug, Clone, Copy, PartialEq, Eq, Structural)]
pub enum SortDirection {
    Asc,
    Desc,
}

impl Default for SortDirection {
    fn default() -> (r: Self)
        ensures
            r == SortDirection::Asc,
    {
        SortDirection::Asc
    }
}

impl SortDirection {
    pub open spec fn spec_name(&self) -> Seq<char> {
        match self {
            SortDirection::Asc => "asc"@,
            SortDirection::Desc => "desc"@,
        }
    }

    /// The direction as it is written in the wire format.
    pub fn name(&self) -> (r: &'static str)
        ensures
            r@ == self.spec_name(),
    {
        match self {
            SortDirection::Asc => "asc",
            SortDirection::Desc => "desc",
        }
    }

    /// The direction that a name of the wire format stands for.
    pub open spec fn spec_from_name(name: Seq<char>) -> Option<SortDirection> {
        if name == "asc"@ {
            Some(SortDirection::Asc)
        } else if name == "desc"@ {
            Some(SortDirection::Desc)
        } else {
            None
        }
    }

    /// Reads a direction as it is written in the wire format.
    pub fn from_name(name: &str) -> (r: Option<SortDirection>)
        ensures
            r == Self::spec_from_name(name@),
    {
        if same_text(name, "asc") {
            Some(SortDirection::Asc)
        } else if same_text(name, "desc") {
            Some(SortDirection::Desc)
        } else {
            None
        }
    }
}

/// The field to sort by, and the direction.
#[derive(Debug, Clone)]
pub struct OrderBy {
    pub field: String,
    pub direction: SortDirection,
}

impl OrderBy {
    /// Ascending by a field.
    pub fn asc<S: Text>(field: S) -> (r: Self)
        ensures
            r.field@ == field.text(),
            r.direction == SortDirection::Asc,
    {
        OrderBy { field: field.to_text(), direction: SortDirection::Asc }
    }

    /// Descending by a field.
    pub fn desc<S: Text>(field: S) -> (r: Self)
        ensures
            r.field@ == field.text(),
            r.direction == SortDirection::Desc,
    {
        OrderBy { field: field.to_text(), direction: SortDirection::Desc }
    }
}

/// The characters of each string of a sequence.
pub open spec fn texts(strings: Seq<String>) -> Seq<Seq<char>> {
    strings.map_values(|s: String| s@)
}

/// The characters of each text of a sequence.
pub open spec fn texts_of<S: Text>(items: Seq<S>) -> Seq<Seq<char>> {
    items.map_values(|s: S| s.text())
}

fn collect_texts<S: Text, const N: usize>(items: &[S; N]) -> (r: Vec<String>)
    ensures
        texts(r@) == texts_of(items@),
{
    let mut strings: Vec<String> = Vec::new();
    let mut i: usize = 0;
    while i < N
        invariant
            i <= N,
            items@.len() == N,
            strings@.len() == i,
            forall|k: int| 0 <= k < i ==> (#[trigger] strings@[k])@ == items@[k].text(),
        decreases N - i,
    {
        strings.push(items[i].to_text());
        i += 1;
    }
    assert(texts(strings@) =~= texts_of(items@));
    strings
}

/// A query: what to select, which entities to keep, how to order them and
/// how many to return.
#[derive(Debug, Clone)]
pub struct QueryDescriptor {
    /// Names of the fields of each result row. None means the id alone.
    pub select: Vec<String>,
    /// Names of the components that an entity must have.
    pub with_components: Vec<String>,
    /// Names of the components that an entity must not have.
    pub without_components: Vec<String>,
    /// Conditions that an entity must meet, all of them.
    pub filters: Vec<FilterExpr>,
    /// Order of the rows, if any is asked for.
    pub order_by: Option<OrderBy>,
    /// Greatest number of rows, if any is set.
    pub limit: Option<usize>,
}

impl Default for QueryDescriptor {
    fn default() -> (r: Self)
        ensures
            r.is_blank(),
    {
        QueryDescriptor {
            select: Vec::new(),
            with_components: Vec::new(),
            without_components: Vec::new(),
            filters: Vec::new(),
            order_by: None,
            limit: None,
        }
    }
}

impl QueryDescriptor {
    /// Whether the query asks for nothing in particular: every alive
    /// entity, in index order, by its id.
    pub open spec fn is_blank(&self) -> bool {
        &&& self.select@.len() == 0
        &&& self.with_components@.len() == 0
        &&& self.without_components@.len() == 0
        &&& self.filters@.len() == 0
        &&& self.order_by is None
        &&& self.limit is None
    }

    /// The query that asks for nothing in particular.
    pub fn new() -> (r: Self)
        ensures
            r.is_blank(),
    {
        QueryDescriptor {
            select: Vec::new(),
            with_components: Vec::new(),
            without_components: Vec::new(),
            filters: Vec::new(),
            order_by: None,
            limit: None,
        }
    }

    /// Sets the fields to select.
    pub fn select<S: Text, const N: usize>(self, fields: [S; N]) -> (r: Self)
        ensures
            texts(r.select@) == texts_of(fields@),
            r == (QueryDescriptor { select: r.select, ..self }),
    {
        let mut r = self;
        r.select = collect_texts(&fields);
        r
    }

    /// Sets the components that an entity must have.
    pub fn with<S: Text, const N: usize>(self, components: [S; N]) -> (r: Self)
        ensures
            texts(r.with_components@) == texts_of(components@),
            r == (QueryDescriptor { with_components: r.with_components, ..self }),
    {
        let mut r = self;
        r.with_components = collect_texts(&components);
        r
    }

    /// Sets the components that an entity must not have.
    pub fn without<S: Text, const N: usize>(self, components: [S; N]) -> (r: Self)
        ensures
            texts(r.without_components@) == texts_of(components@),
            r == (QueryDescriptor { without_components: r.without_components, ..self }),
    {
        let mut r = self;
        r.without_components = collect_texts(&components);
        r
    }

    /// Adds a condition.
    pub fn filter(self, expr: FilterExpr) -> (r: Self)
        ensures
            r.filters@ == self.filters@.push(expr),
            r == (QueryDescriptor { filters: r.filters, ..self }),
    {
        let mut r = self;
        r.filters.push(expr);
        r
    }

    /// Sets the order.
    pub fn order_by(self, order: OrderBy) -> (r: Self)
        ensures
            r == (QueryDescriptor { order_by: Some(order), ..self }),
    {
        let mut r = self;
        r.order_by = Some(order);
        r
    }

    /// Sets the greatest number of rows.
    pub fn limit(self, n: usize) -> (r: Self)
        ensures
            r == (QueryDescriptor { limit: Some(n), ..self }),
    {
        let mut r = self;
        r.limit = Some(n);
        r
    }

    /// Adds a component that an entity must have.
    pub fn with_component<S: Text>(self, component: S) -> (r: Self)
        ensures
            texts(r.with_components@) == texts(self.with_components@).push(component.text()),
            r == (QueryDescriptor { with_components: r.with_components, ..self }),
    {
        let mut r = self;
        r.with_components.push(component.to_text());
        assert(texts(r.with_components@) =~= texts(self.with_components@).push(component.text()));
        r
    }

    /// Adds a component that an entity must not have.
    pub fn without_component<S: Text>(self, component: S) -> (r: Self)
        ensures
            texts(r.without_components@) == texts(self.without_components@).push(
                component.text(),
            ),
            r == (QueryDescriptor { without_components: r.without_components, ..self }),
    {
        let mut r = self;
        r.without_components.push(component.to_text());
        assert(texts(r.without_components@) =~= texts(self.without_components@).push(
            component.text(),
        ));
        r
    }
}

/// One row of a result: an entity by its packed id, and its selected fields.
#[derive(Debug, Clone, PartialEq)]
pub struct QueryResultRow {
    /// The packed id of the entity.
    pub id: u32,
    /// The values of the selected fields, by name.
    pub fields: FieldMap,
}

/// The mathematical content of a [`QueryResultRow`].
pub ghost struct RowModel {
    pub id: u32,
    pub fields: Map<Seq<char>, JsonModel>,
}

impl View for QueryResultRow {
    type V = RowModel;

    open spec fn view(&self) -> RowModel {
        RowModel { id: self.id, fields: self.fields@ }
    }
}

impl QueryResultRow {
    /// A row without fields.
    pub fn new(id: u32) -> (r: Self)
        ensures
            r@ == (RowModel { id, fields: Map::empty() }),
    {
        QueryResultRow { id, fields: FieldMap::new() }
    }

    /// The row with one more field, or with a new value for a field it has.
    pub fn with_field<S: Text>(self, name: S, value: JsonValue) -> (r: Self)
        ensures
            r@ == (RowModel { id: self.id, fields: self.fields@.insert(name.text(), value@) }),
    {
        let mut r = self;
        r.fields.insert(name.to_text(), value);
        r
    }

    /// Sets the value of a field.
    pub fn set_field<S: Text>(&mut self, name: S, value: JsonValue)
        ensures
            final(self)@ == (RowModel {
                id: old(self).id,
                fields: old(self).fields@.insert(name.text(), value@),
            }),
    {
        self.fields.insert(name.to_text(), value);
    }

    /// The value of a field, if the row has it.
    pub fn get_field(&self, name: &str) -> (r: Option<&JsonValue>)
        ensures
            match r {
                Some(value) => self@.fields.contains_key(name@) && value@ == self@.fields[name@],
                None => !self@.fields.contains_key(name@),
            },
    {
        self.fields.get(name)
    }
}

/// The rows of each row of a sequence.
pub open spec fn rows_view(rows: Seq<QueryResultRow>) -> Seq<RowModel> {
    rows.map_values(|row: QueryResultRow| row@)
}

/// The result of a query.
#[derive(Debug, Clone, PartialEq)]
pub struct QueryResult {
    /// The rows, in the order asked for, no more than the limit.
    pub rows: Vec<QueryResultRow>,
    /// Number of entities that matched, before the limit was applied.
    pub total_count: usize,
}

/// The mathematical content of a [`QueryResult`].
pub ghost struct ResultModel {
    pub rows: Seq<RowModel>,
    pub total_count: nat,
}

impl View for QueryResult {
    type V = ResultModel;

    open spec fn view(&self) -> ResultModel {
        ResultModel { rows: rows_view(self.rows@), total_count: self.total_count as nat }
    }
}

impl Default for QueryResult {
    fn default() -> (r: Self)
        ensures
            r@ == (ResultModel { rows: Seq::empty(), total_count: 0 }),
    {
        QueryResult::empty()
    }
}

impl QueryResult {
    /// The result without rows.
    pub fn empty() -> (r: Self)
        ensures
            r@ == (ResultModel { rows: Seq::empty(), total_count: 0 }),
    {
        let r = QueryResult { rows: Vec::new(), total_count: 0 };
        assert(rows_view(r.rows@) =~= Seq::<RowModel>::empty());
        r
    }

    /// Number of rows.
    pub fn len(&self) -> (r: usize)
        ensures
            r == self@.rows.len(),
    {
        self.rows.len()
    }

    /// Whether there is no row.
    pub fn is_empty(&self) -> (r: bool)
        ensures
            r == (self@.rows.len() == 0),
    {
        self.rows.len() == 0
    }

    /// The rows, in order.
    pub fn iter(&self) -> (r: Vec<&QueryResultRow>)
        ensures
            r@.len() == self.rows@.len(),
            forall|i: int| 0 <= i < r@.len() ==> *(#[trigger] r@[i]) == self.rows@[i],
    {
        let mut rows: Vec<&QueryResultRow> = Vec::new();
        let mut i: usize = 0;
        while i < self.rows.len()
            invariant
                i <= self.rows@.len(),
                rows@.len() == i,
                forall|k: int| 0 <= k < i ==> *(#[trigger] rows@[k]) == self.rows@[k],
            decreases self.rows@.len() - i,
        {
            rows.push(&self.rows[i]);
            i += 1;
        }
        rows
    }
}

} // verus!
