//! The query engine: evaluates a query against the content of a world.

use super::entity::{group_entity_id, EntityId};
use super::query::{
    texts, FilterExpr, FilterModel, FilterValue, QueryDescriptor, QueryResult, QueryResultRow,
    ResultModel, RowModel, SortDirection,
};
use super::world::{lemma_alive_entities, World, WorldView};
use crate::components::name::Name;
use crate::components::transform::Transform;
use crate::json::{JsonModel, JsonNumber, JsonValue};
use crate::math::{Quat, Vec3};
use crate::scalar::{lemma_bits_of_u32, Order};
use crate::text::{
    lemma_text_order_reverse, lemma_text_order_transitive, order_text, same_text, text_order,
};
use vstd::prelude::*;

verus! {

broadcast use group_entity_id;

/// The transform of an entity, if it is alive and has one.
pub open spec fn transform_of(view: WorldView, entity: EntityId) -> Option<Transform> {
    if view.is_alive(entity) && view.transforms.contains_key(entity.spec_index()) {
        Some(view.transforms[entity.spec_index()])
    } else {
        None
    }
}

/// The name of an entity, if it is alive and has one.
pub open spec fn name_of(view: WorldView, entity: EntityId) -> Option<Name> {
    if view.is_alive(entity) && view.names.contains_key(entity.spec_index()) {
        Some(view.names[entity.spec_index()])
    } else {
        None
    }
}

/// Whether an entity has the component that a name stands for. The names
/// are `Transform` and `Name`; no entity has a component of any other name.
pub open spec fn has_component(view: WorldView, entity: EntityId, name: Seq<char>) -> bool {
    if name == "Transform"@ {
        transform_of(view, entity) is Some
    } else if name == "Name"@ {
        name_of(view, entity) is Some
    } else {
        false
    }
}

/// A vector as an object with the members `x`, `y` and `z`.
pub open spec fn vector_json(v: Vec3) -> JsonModel {
    JsonModel::Object(
        seq![
            ("x"@, JsonNumber::spec_member(v.x)),
            ("y"@, JsonNumber::spec_member(v.y)),
            ("z"@, JsonNumber::spec_member(v.z)),
        ],
    )
}

/// A quaternion as an object with the members `x`, `y`, `z` and `w`.
pub open spec fn quat_json(q: Quat) -> JsonModel {
    JsonModel::Object(
        seq![
            ("x"@, JsonNumber::spec_member(q.x)),
            ("y"@, JsonNumber::spec_member(q.y)),
            ("z"@, JsonNumber::spec_member(q.z)),
            ("w"@, JsonNumber::spec_member(q.w)),
        ],
    )
}

/// The value that a field of a transform has; `None` for the name of no field.
pub open spec fn transform_field(t: Transform, field: Seq<char>) -> Option<JsonModel> {
    if field == "position"@ {
        Some(vector_json(t.position))
    } else if field == "position.x"@ {
        Some(JsonModel::of_scalar(t.position.x))
    } else if field == "position.y"@ {
        Some(JsonModel::of_scalar(t.position.y))
    } else if field == "position.z"@ {
        Some(JsonModel::of_scalar(t.position.z))
    } else if field == "rotation"@ {
        Some(quat_json(t.rotation))
    } else if field == "scale"@ {
        Some(vector_json(t.scale))
    } else if field == "scale.x"@ {
        Some(JsonModel::of_scalar(t.scale.x))
    } else if field == "scale.y"@ {
        Some(JsonModel::of_scalar(t.scale.y))
    } else if field == "scale.z"@ {
        Some(JsonModel::of_scalar(t.scale.z))
    } else {
        None
    }
}

/// The value of a field of an entity: `id` is the packed id of any handle,
/// `name` comes from the name of an alive entity, and the fields of
/// position, rotation and scale from its transform. A field of a component
/// that the entity does not have, and a field of any other name, has no value.
pub open spec fn field_of(view: WorldView, entity: EntityId, field: Seq<char>) -> Option<
    JsonModel,
> {
    if field == "id"@ {
        Some(JsonModel::Number(JsonNumber::Unsigned(entity.spec_to_u32())))
    } else if field == "name"@ {
        match name_of(view, entity) {
            Some(name) => Some(JsonModel::String(name@)),
            None => None,
        }
    } else {
        match transform_of(view, entity) {
            Some(t) => transform_field(t, field),
            None => None,
        }
    }
}

/// Whether an entity meets a condition: the field has a value that is not
/// an object, and the operator holds of that value, read as a literal, and
/// the condition's literal. An object is of no kind that a literal has, so
/// it meets no condition, not even a comparison with null.
pub open spec fn passes(view: WorldView, entity: EntityId, filter: FilterExpr) -> bool {
    match field_of(view, entity, filter.field@) {
        Some(JsonModel::Object(_)) => false,
        Some(value) => filter.op.spec_compare_values(FilterModel::from_json(value), filter.value@),
        None => false,
    }
}

/// Whether an entity has every component of a list of names.
pub open spec fn has_all(view: WorldView, entity: EntityId, names: Seq<String>) -> bool {
    forall|i: int| 0 <= i < names.len() ==> has_component(view, entity, (#[trigger] names[i])@)
}

/// Whether an entity has no component of a list of names.
pub open spec fn has_none(view: WorldView, entity: EntityId, names: Seq<String>) -> bool {
    forall|i: int| 0 <= i < names.len() ==> !has_component(view, entity, (#[trigger] names[i])@)
}

/// Whether an entity meets every condition of a list.
pub open spec fn passes_all(view: WorldView, entity: EntityId, filters: Seq<FilterExpr>) -> bool {
    forall|i: int| 0 <= i < filters.len() ==> passes(view, entity, #[trigger] filters[i])
}

/// Whether a query keeps an entity: it has every required component, none
/// of the excluded ones, and meets every condition.
pub open spec fn is_match(view: WorldView, query: QueryDescriptor, entity: EntityId) -> bool {
    &&& has_all(view, entity, query.with_components@)
    &&& has_none(view, entity, query.without_components@)
    &&& passes_all(view, entity, query.filters@)
}

fn vector_value(v: &Vec3) -> (r: JsonValue)
    ensures
        r@ == vector_json(*v),
{
    let mut members: Vec<(String, Option<JsonNumber>)> = Vec::new();
    members.push(("x".to_owned(), JsonNumber::member(v.x)));
    members.push(("y".to_owned(), JsonNumber::member(v.y)));
    members.push(("z".to_owned(), JsonNumber::member(v.z)));
    let r = JsonValue::Object(members);
    assert(r@->Object_0 =~= vector_json(*v)->Object_0);
    r
}

fn quat_value(q: &Quat) -> (r: JsonValue)
    ensures
        r@ == quat_json(*q),
{
    let mut members: Vec<(String, Option<JsonNumber>)> = Vec::new();
    members.push(("x".to_owned(), JsonNumber::member(q.x)));
    members.push(("y".to_owned(), JsonNumber::member(q.y)));
    members.push(("z".to_owned(), JsonNumber::member(q.z)));
    members.push(("w".to_owned(), JsonNumber::member(q.w)));
    let r = JsonValue::Object(members);
    assert(r@->Object_0 =~= quat_json(*q)->Object_0);
    r
}

fn transform_value(t: &Transform, field: &str) -> (r: Option<JsonValue>)
    ensures
        match r {
            Some(value) => transform_field(*t, field@) == Some(value@),
            None => transform_field(*t, field@) is None,
        },
{
    if same_text(field, "position") {
        Some(vector_value(&t.position))
    } else if same_text(field, "position.x") {
        Some(JsonValue::from_scalar(t.position.x))
    } else if same_text(field, "position.y") {
        Some(JsonValue::from_scalar(t.position.y))
    } else if same_text(field, "position.z") {
        Some(JsonValue::from_scalar(t.position.z))
    } else if same_text(field, "rotation") {
        Some(quat_value(&t.rotation))
    } else if same_text(field, "scale") {
        Some(vector_value(&t.scale))
    } else if same_text(field, "scale.x") {
        Some(JsonValue::from_scalar(t.scale.x))
    } else if same_text(field, "scale.y") {
        Some(JsonValue::from_scalar(t.scale.y))
    } else if same_text(field, "scale.z") {
        Some(JsonValue::from_scalar(t.scale.z))
    } else {
        None
    }
}

impl World {
    /// Whether an entity has the component that a name stands for.
    pub fn has_component(&self, entity: EntityId, component_name: &str) -> (r: bool)
        requires
            self.wf(),
        ensures
            r == has_component(self@, entity, component_name@),
    {
        if same_text(component_name, "Transform") {
            self.get::<Transform>(entity).is_some()
        } else if same_text(component_name, "Name") {
            self.get::<Name>(entity).is_some()
        } else {
            false
        }
    }

    /// The value of a field of an entity, if it has one.
    pub fn extract_field(&self, entity: EntityId, field: &str) -> (r: Option<JsonValue>)
        requires
            self.wf(),
        ensures
            match r {
                Some(value) => field_of(self@, entity, field@) == Some(value@),
                None => field_of(self@, entity, field@) is None,
            },
    {
        if same_text(field, "id") {
            Some(JsonValue::from_u32(entity.to_u32()))
        } else if same_text(field, "name") {
            match self.get::<Name>(entity) {
                Some(name) => Some(JsonValue::from_text(name.as_str())),
                None => None,
            }
        } else {
            match self.get::<Transform>(entity) {
                Some(t) => transform_value(t, field),
                None => None,
            }
        }
    }

    /// Whether an entity meets a condition.
    pub fn evaluate_filter(&self, entity: EntityId, filter: &FilterExpr) -> (r: bool)
        requires
            self.wf(),
        ensures
            r == passes(self@, entity, *filter),
    {
        match self.extract_field(entity, filter.field.as_str()) {
            Some(JsonValue::Object(_)) => false,
            Some(value) => {
                let field_value = FilterValue::from_json(value);
                filter.op.compare_values(&field_value, &filter.value)
            },
            None => false,
        }
    }

    /// Whether a query keeps an entity.
    fn keeps(&self, query: &QueryDescriptor, entity: EntityId) -> (r: bool)
        requires
            self.wf(),
        ensures
            r == is_match(self@, *query, entity),
    {
        let mut i: usize = 0;
        while i < query.with_components.len()
            invariant
                self.wf(),
                i <= query.with_components@.len(),
                forall|k: int|
                    0 <= k < i ==> has_component(
                        self@,
                        entity,
                        (#[trigger] query.with_components@[k])@,
                    ),
            decreases query.with_components@.len() - i,
        {
            if !self.has_component(entity, query.with_components[i].as_str()) {
                return false;
            }
            i += 1;
        }
        let mut j: usize = 0;
        while j < query.without_components.len()
            invariant
                self.wf(),
                j <= query.without_components@.len(),
                forall|k: int|
                    0 <= k < j ==> !has_component(
                        self@,
                        entity,
                        (#[trigger] query.without_components@[k])@,
                    ),
            decreases query.without_components@.len() - j,
        {
            if self.has_component(entity, query.without_components[j].as_str()) {
                return false;
            }
            j += 1;
        }
        let mut f: usize = 0;
        while f < query.filters.len()
            invariant
                self.wf(),
                f <= query.filters@.len(),
                forall|k: int| 0 <= k < f ==> passes(self@, entity, #[trigger] query.filters@[k]),
            decreases query.filters@.len() - f,
        {
            if !self.evaluate_filter(entity, &query.filters[f]) {
                return false;
            }
            f += 1;
        }
        true
    }
}

/// How two sort keys compare. Numbers compare as numbers, and a NaN as
/// equal to every number; strings compare lexicographically; a missing key
/// is greater than any key that is there; all other pairs are equal.
pub open spec fn key_order(a: Option<JsonModel>, b: Option<JsonModel>) -> Order {
    match (a, b) {
        (Some(JsonModel::Number(x)), Some(JsonModel::Number(y))) => match x.spec_as_scalar().spec_order(
            &y.spec_as_scalar(),
        ) {
            Some(order) => order,
            None => Order::Equal,
        },
        (Some(JsonModel::String(x)), Some(JsonModel::String(y))) => text_order(x, y),
        (Some(_), None) => Order::Less,
        (None, Some(_)) => Order::Greater,
        _ => Order::Equal,
    }
}

/// The comparison of two sort keys in a direction: as it is for ascending,
/// with its sides exchanged for descending.
pub open spec fn directed_order(
    a: Option<JsonModel>,
    b: Option<JsonModel>,
    direction: SortDirection,
) -> Order {
    match direction {
        SortDirection::Asc => key_order(a, b),
        SortDirection::Desc => key_order(a, b).spec_reverse(),
    }
}

/// Where item `item` goes among the positions `placed`, searching from
/// position `j` down: behind the last placed item that is not greater than it.
pub open spec fn insertion_point(
    keys: Seq<Option<JsonModel>>,
    direction: SortDirection,
    placed: Seq<usize>,
    item: int,
    j: nat,
) -> nat
    decreases j,
{
    if j > 0 && directed_order(keys[placed[j - 1] as int], keys[item], direction)
        == Order::Greater {
        insertion_point(keys, direction, placed, item, (j - 1) as nat)
    } else {
        j
    }
}

/// The first `n` positions of `keys` in sorted order: each position in
/// turn is placed behind the last one already placed whose key is not
/// greater. Positions with equal keys stay in their order.
pub open spec fn sorted_positions(
    keys: Seq<Option<JsonModel>>,
    direction: SortDirection,
    n: nat,
) -> Seq<usize>
    decreases n,
{
    if n == 0 {
        Seq::empty()
    } else {
        let placed = sorted_positions(keys, direction, (n - 1) as nat);
        placed.insert(
            insertion_point(keys, direction, placed, n - 1, placed.len()) as int,
            (n - 1) as usize,
        )
    }
}

/// The contents of a sequence of sort keys.
pub open spec fn keys_view(keys: Seq<Option<JsonValue>>) -> Seq<Option<JsonModel>> {
    keys.map_values(
        |key: Option<JsonValue>|
            match key {
                Some(value) => Some(value@),
                None => None,
            },
    )
}

/// Compares two sort keys.
fn compare_json_values(a: &Option<JsonValue>, b: &Option<JsonValue>) -> (r: Order)
    ensures
        r == key_order(keys_view(seq![*a])[0], keys_view(seq![*b])[0]),
{
    match (a, b) {
        (Some(JsonValue::Number(x)), Some(JsonValue::Number(y))) => {
            match x.as_scalar().order(&y.as_scalar()) {
                Some(order) => order,
                None => Order::Equal,
            }
        },
        (Some(JsonValue::String(x)), Some(JsonValue::String(y))) => order_text(
            x.as_str(),
            y.as_str(),
        ),
        (Some(_), None) => Order::Less,
        (None, Some(_)) => Order::Greater,
        _ => Order::Equal,
    }
}

/// The positions of the keys in sorted order.
fn sort_positions(keys: &Vec<Option<JsonValue>>, direction: SortDirection) -> (r: Vec<usize>)
    ensures
        r@ == sorted_positions(keys_view(keys@), direction, keys@.len()),
{
    let mut placed: Vec<usize> = Vec::new();
    let mut item: usize = 0;
    while item < keys.len()
        invariant
            item <= keys@.len(),
            placed@ == sorted_positions(keys_view(keys@), direction, item as nat),
            placed@.len() == item,
            forall|k: int| 0 <= k < placed@.len() ==> (#[trigger] placed@[k]) < item,
        decreases keys@.len() - item,
    {
        let mut j: usize = placed.len();
        while j > 0
            invariant
                item < keys@.len(),
                j <= placed@.len(),
                forall|k: int| 0 <= k < placed@.len() ==> (#[trigger] placed@[k]) < item,
                insertion_point(keys_view(keys@), direction, placed@, item as int, j as nat)
                    == insertion_point(
                    keys_view(keys@),
                    direction,
                    placed@,
                    item as int,
                    placed@.len(),
                ),
            ensures
                j <= placed@.len(),
                j == insertion_point(
                    keys_view(keys@),
                    direction,
                    placed@,
                    item as int,
                    placed@.len(),
                ),
            decreases j,
        {
            let other: usize = placed[j - 1];
            let order = compare_json_values(&keys[other], &keys[item]);
            let directed = match direction {
                SortDirection::Asc => order,
                SortDirection::Desc => order.reverse(),
            };
            proof {
                assert(keys_view(seq![keys@[other as int]])[0] == keys_view(keys@)[other as int]);
                assert(keys_view(seq![keys@[item as int]])[0] == keys_view(keys@)[item as int]);
                assert(directed == directed_order(
                    keys_view(keys@)[other as int],
                    keys_view(keys@)[item as int],
                    direction,
                ));
            }
            match directed {
                Order::Greater => {
                    j -= 1;
                },
                _ => {
                    break ;
                },
            }
        }
        placed.insert(j, item);
        item += 1;
    }
    placed
}

/// The test that a query puts to each entity.
pub open spec fn matcher(view: WorldView, query: QueryDescriptor) -> spec_fn(EntityId) -> bool {
    |entity: EntityId| is_match(view, query, entity)
}

/// The entities that a query keeps: the alive ones that match, in
/// increasing index order.
pub open spec fn candidates(view: WorldView, query: QueryDescriptor) -> Seq<EntityId> {
    view.alive_entities().filter(matcher(view, query))
}

/// The sort key of each entity of a sequence: the value of the field, if it has one.
pub open spec fn sort_keys(view: WorldView, field: Seq<char>, entities: Seq<EntityId>) -> Seq<
    Option<JsonModel>,
> {
    entities.map_values(|entity: EntityId| field_of(view, entity, field))
}

/// The entities in the order that a query asks for: sorted by the field
/// and in the direction it names, or as they are if it names none.
pub open spec fn ordered(view: WorldView, query: QueryDescriptor, entities: Seq<EntityId>) -> Seq<
    EntityId,
> {
    match query.order_by {
        Some(order) => sorted_positions(
            sort_keys(view, order.field@, entities),
            order.direction,
            entities.len(),
        ).map_values(|position: usize| entities[position as int]),
        None => entities,
    }
}

/// The entities that the limit of a query lets through: the first ones, up to the limit.
pub open spec fn limited(query: QueryDescriptor, entities: Seq<EntityId>) -> Seq<EntityId> {
    match query.limit {
        Some(n) => if n < entities.len() {
            entities.take(n as int)
        } else {
            entities
        },
        None => entities,
    }
}

/// The fields of the given names that have a value for an entity, each with its value.
pub open spec fn selected_fields(view: WorldView, entity: EntityId, names: Seq<Seq<char>>) -> Map<
    Seq<char>,
    JsonModel,
> {
    Map::new(
        |name: Seq<char>| names.contains(name) && field_of(view, entity, name) is Some,
        |name: Seq<char>| field_of(view, entity, name)->0,
    )
}

/// The row of an entity in the result of a query: under its packed id, the
/// selected fields that have a value, or the field `id` alone if none is selected.
pub open spec fn row_of(view: WorldView, query: QueryDescriptor, entity: EntityId) -> RowModel {
    RowModel {
        id: entity.spec_to_u32(),
        fields: if query.select@.len() == 0 {
            Map::<Seq<char>, JsonModel>::empty().insert(
                "id"@,
                JsonModel::Number(JsonNumber::Unsigned(entity.spec_to_u32())),
            )
        } else {
            selected_fields(view, entity, texts(query.select@))
        },
    }
}

/// The result of a query on the content of a world: the rows of the
/// entities it keeps, ordered and limited as it asks, and the number of
/// entities it keeps before the limit.
pub open spec fn query_result(view: WorldView, query: QueryDescriptor) -> ResultModel {
    ResultModel {
        rows: limited(query, ordered(view, query, candidates(view, query))).map_values(
            |entity: EntityId| row_of(view, query, entity),
        ),
        total_count: candidates(view, query).len(),
    }
}

impl World {
    /// The entities that a query keeps.
    fn select_candidates(&self, query: &QueryDescriptor) -> (r: Vec<EntityId>)
        requires
            self.wf(),
        ensures
            r@ == candidates(self@, *query),
    {
        let alive = self.iter_entities();
        let mut kept: Vec<EntityId> = Vec::new();
        let mut i: usize = 0;
        assert(alive@.take(0).filter(matcher(self@, *query)) =~= Seq::<EntityId>::empty()) by {
            reveal(Seq::filter);
        }
        while i < alive.len()
            invariant
                self.wf(),
                i <= alive@.len(),
                kept@ == alive@.take(i as int).filter(matcher(self@, *query)),
            decreases alive@.len() - i,
        {
            let entity = alive[i];
            proof {
                let test = matcher(self@, *query);
                let longer = alive@.take(i + 1);
                assert(longer.drop_last() =~= alive@.take(i as int));
                assert(longer.last() == entity);
                assert(test(entity) == is_match(self@, *query, entity));
                assert(longer =~= alive@.take(i as int).push(entity));
                alive@.take(i as int).lemma_filter_push(entity, test);
            }
            if self.keeps(query, entity) {
                kept.push(entity);
            }
            i += 1;
        }
        assert(alive@.take(i as int) =~= alive@);
        kept
    }

    /// The entities in the order that a query asks for.
    fn order_candidates(&self, query: &QueryDescriptor, entities: Vec<EntityId>) -> (r: Vec<
        EntityId,
    >)
        requires
            self.wf(),
        ensures
            r@ == ordered(self@, *query, entities@),
    {
        let order = match &query.order_by {
            Some(order) => order,
            None => {
                return entities;
            },
        };
        let mut keys: Vec<Option<JsonValue>> = Vec::new();
        let mut i: usize = 0;
        while i < entities.len()
            invariant
                self.wf(),
                i <= entities@.len(),
                keys@.len() == i,
                forall|k: int|
                    0 <= k < i ==> #[trigger] keys_view(keys@)[k] == field_of(
                        self@,
                        entities@[k],
                        order.field@,
                    ),
            decreases entities@.len() - i,
        {
            let key = self.extract_field(entities[i], order.field.as_str());
            let ghost before = keys@;
            keys.push(key);
            proof {
                assert forall|k: int| 0 <= k < i + 1 implies #[trigger] keys_view(keys@)[k]
                    == field_of(self@, entities@[k], order.field@) by {
                    if k < i {
                        assert(keys_view(before)[k] == keys_view(keys@)[k]);
                    }
                }
            }
            i += 1;
        }
        assert(keys_view(keys@) =~= sort_keys(self@, order.field@, entities@));
        let positions = sort_positions(&keys, order.direction);
        proof {
            lemma_sorted_positions_in_range(keys_view(keys@), order.direction, keys@.len());
        }
        let mut sorted: Vec<EntityId> = Vec::new();
        let mut p: usize = 0;
        while p < positions.len()
            invariant
                p <= positions@.len(),
                positions@.len() == entities@.len(),
                forall|k: int| 0 <= k < positions@.len() ==> (#[trigger] positions@[k]) < entities@.len(),
                sorted@.len() == p,
                forall|k: int| 0 <= k < p ==> #[trigger] sorted@[k] == entities@[positions@[k] as int],
            decreases positions@.len() - p,
        {
            sorted.push(entities[positions[p]]);
            p += 1;
        }
        assert(sorted@ =~= ordered(self@, *query, entities@));
        sorted
    }

    /// The row of an entity in the result of a query.
    fn build_row(&self, query: &QueryDescriptor, entity: EntityId) -> (r: QueryResultRow)
        requires
            self.wf(),
        ensures
            r@ == row_of(self@, *query, entity),
    {
        let mut row = QueryResultRow::new(entity.to_u32());
        if query.select.len() == 0 {
            row.set_field("id", JsonValue::from_u32(entity.to_u32()));
            return row;
        }
        let ghost names = texts(query.select@);
        let mut i: usize = 0;
        assert(row@.fields =~= selected_fields(self@, entity, names.take(0)));
        while i < query.select.len()
            invariant
                self.wf(),
                i <= query.select@.len(),
                names == texts(query.select@),
                row@.id == entity.spec_to_u32(),
                row@.fields == selected_fields(self@, entity, names.take(i as int)),
            decreases query.select@.len() - i,
        {
            let field = &query.select[i];
            let ghost before = row@.fields;
            proof {
                assert(names[i as int] == field@);
                let shorter = names.take(i as int);
                let longer = names.take(i + 1);
                assert forall|name: Seq<char>|
                    longer.contains(name) <==> shorter.contains(name) || name == field@ by {
                    if longer.contains(name) {
                        let k = choose|k: int| 0 <= k < longer.len() && #[trigger] longer[k] == name;
                        if k < i {
                            assert(shorter[k] == name);
                        }
                    }
                    if shorter.contains(name) {
                        let k = choose|k: int|
                            0 <= k < shorter.len() && #[trigger] shorter[k] == name;
                        assert(longer[k] == name);
                    }
                    if name == field@ {
                        assert(longer[i as int] == name);
                    }
                }
            }
            match self.extract_field(entity, field.as_str()) {
                Some(value) => {
                    row.set_field(field.clone(), value);
                    assert(row@.fields =~= selected_fields(self@, entity, names.take(i + 1)));
                },
                None => {
                    assert(row@.fields =~= selected_fields(self@, entity, names.take(i + 1)));
                },
            }
            i += 1;
        }
        assert(names.take(i as int) =~= names);
        row
    }

    /// Evaluates a query against the world. Nothing of the world changes.
    pub fn execute_query(&self, query: &QueryDescriptor) -> (r: QueryResult)
        requires
            self.wf(),
        ensures
            r@ == query_result(self@, *query),
    {
        let matched = self.select_candidates(query);
        let total_count = matched.len();
        let mut entities = self.order_candidates(query, matched);
        match query.limit {
            Some(limit) => {
                entities.truncate(limit);
            },
            None => {},
        }
        assert(entities@ =~= limited(
            *query,
            ordered(self@, *query, candidates(self@, *query)),
        ));
        let mut rows: Vec<QueryResultRow> = Vec::new();
        let mut i: usize = 0;
        while i < entities.len()
            invariant
                self.wf(),
                i <= entities@.len(),
                rows@.len() == i,
                forall|k: int|
                    0 <= k < i ==> (#[trigger] rows@[k])@ == row_of(self@, *query, entities@[k]),
            decreases entities@.len() - i,
        {
            rows.push(self.build_row(query, entities[i]));
            i += 1;
        }
        let r = QueryResult { rows, total_count };
        assert(r@.rows =~= query_result(self@, *query).rows);
        r
    }
}

/// Every sorted position is a position of the keys, and there are as many
/// of them as were sorted.
pub proof fn lemma_sorted_positions_in_range(
    keys: Seq<Option<JsonModel>>,
    direction: SortDirection,
    n: nat,
)
    requires
        n <= usize::MAX,
    ensures
        sorted_positions(keys, direction, n).len() == n,
        forall|k: int| 0 <= k < n ==> (#[trigger] sorted_positions(keys, direction, n)[k]) < n,
    decreases n,
{
    if n > 0 {
        lemma_sorted_positions_in_range(keys, direction, (n - 1) as nat);
        let placed = sorted_positions(keys, direction, (n - 1) as nat);
        lemma_insertion_point_in_range(keys, direction, placed, n - 1, placed.len());
    }
}

/// The insertion point is no further than where the search began.
pub proof fn lemma_insertion_point_in_range(
    keys: Seq<Option<JsonModel>>,
    direction: SortDirection,
    placed: Seq<usize>,
    item: int,
    j: nat,
)
    ensures
        insertion_point(keys, direction, placed, item, j) <= j,
    decreases j,
{
    if j > 0 {
        lemma_insertion_point_in_range(keys, direction, placed, item, (j - 1) as nat);
    }
}

/// Whether the key at position `a` does not come after the key at position `b`.
pub open spec fn not_after(
    keys: Seq<Option<JsonModel>>,
    direction: SortDirection,
    a: int,
    b: int,
) -> bool {
    directed_order(keys[a], keys[b], direction) != Order::Greater
}

/// Whether the keys at positions `a` and `b` compare equal.
pub open spec fn tied(keys: Seq<Option<JsonModel>>, direction: SortDirection, a: int, b: int) -> bool {
    directed_order(keys[a], keys[b], direction) == Order::Equal
}

/// Whether the comparison of the keys is an order: exchanging the sides
/// reverses it, and "does not come after" carries over from pair to pair.
pub open spec fn orderly(keys: Seq<Option<JsonModel>>, direction: SortDirection) -> bool {
    &&& forall|a: int, b: int|
        0 <= a < keys.len() && 0 <= b < keys.len() ==> (#[trigger] not_after(keys, direction, a, b)
            <==> !not_after(keys, direction, b, a) || tied(keys, direction, a, b))
    &&& forall|a: int, b: int|
        0 <= a < keys.len() && 0 <= b < keys.len() ==> (#[trigger] tied(keys, direction, a, b)
            <==> tied(keys, direction, b, a))
    &&& forall|a: int, b: int, c: int|
        0 <= a < keys.len() && 0 <= b < keys.len() && 0 <= c < keys.len() && #[trigger] not_after(
            keys,
            direction,
            a,
            b,
        ) && #[trigger] not_after(keys, direction, b, c) ==> not_after(keys, direction, a, c)
}

/// The sorted positions are the first `n` positions, each once.
pub proof fn lemma_sorted_positions_permute(
    keys: Seq<Option<JsonModel>>,
    direction: SortDirection,
    n: nat,
)
    requires
        n <= usize::MAX,
    ensures
        sorted_positions(keys, direction, n).len() == n,
        sorted_positions(keys, direction, n).no_duplicates(),
        forall|i: usize| i < n ==> #[trigger] sorted_positions(keys, direction, n).contains(i),
    decreases n,
{
    lemma_sorted_positions_in_range(keys, direction, n);
    if n > 0 {
        let placed = sorted_positions(keys, direction, (n - 1) as nat);
        let now = sorted_positions(keys, direction, n);
        lemma_sorted_positions_permute(keys, direction, (n - 1) as nat);
        lemma_sorted_positions_in_range(keys, direction, (n - 1) as nat);
        lemma_insertion_point_in_range(keys, direction, placed, n - 1, placed.len());
        let p = insertion_point(keys, direction, placed, n - 1, placed.len()) as int;
        assert forall|i: int, j: int| 0 <= i < now.len() && 0 <= j < now.len() && i != j implies now[i]
            != now[j] by {
            let i0 = if i < p { i } else { i - 1 };
            let j0 = if j < p { j } else { j - 1 };
            if i != p && j != p {
                assert(placed[i0] != placed[j0]);
            } else if i == p {
                assert(placed[j0] < n - 1);
            } else {
                assert(placed[i0] < n - 1);
            }
        }
        assert forall|i: usize| i < n implies #[trigger] now.contains(i) by {
            if i == n - 1 {
                assert(now[p] == i);
            } else {
                assert(placed.contains(i));
                let k = choose|k: int| 0 <= k < placed.len() && placed[k] == i;
                let k1 = if k < p { k } else { k + 1 };
                assert(now[k1] == i);
            }
        }
    }
}

/// What holds at the insertion point, when the search began at position
/// `j`: every placed item from there up to `j` is greater than the new
/// item, and the one just before, if there is one, is not.
pub proof fn lemma_insertion_point(
    keys: Seq<Option<JsonModel>>,
    direction: SortDirection,
    placed: Seq<usize>,
    item: int,
    j: nat,
)
    ensures
        insertion_point(keys, direction, placed, item, j) <= j,
        forall|k: int|
            insertion_point(keys, direction, placed, item, j) <= k < j ==> !#[trigger] not_after(
                keys,
                direction,
                placed[k] as int,
                item,
            ),
        insertion_point(keys, direction, placed, item, j) > 0 ==> not_after(
            keys,
            direction,
            placed[insertion_point(keys, direction, placed, item, j) - 1] as int,
            item,
        ),
    decreases j,
{
    if j > 0 && directed_order(keys[placed[j - 1] as int], keys[item], direction)
        == Order::Greater {
        lemma_insertion_point(keys, direction, placed, item, (j - 1) as nat);
    }
}

/// Where the comparison of the keys is an order, the sorted positions are
/// in that order, and positions whose keys are tied stay as they were.
pub proof fn lemma_sorted_positions_sorted(
    keys: Seq<Option<JsonModel>>,
    direction: SortDirection,
    n: nat,
)
    requires
        n <= keys.len(),
        n <= usize::MAX,
        orderly(keys, direction),
    ensures
        forall|i: int, j: int|
            0 <= i < j < n ==> {
                &&& #[trigger] not_after(
                    keys,
                    direction,
                    sorted_positions(keys, direction, n)[i] as int,
                    sorted_positions(keys, direction, n)[j] as int,
                )
                &&& tied(
                    keys,
                    direction,
                    sorted_positions(keys, direction, n)[i] as int,
                    sorted_positions(keys, direction, n)[j] as int,
                ) ==> sorted_positions(keys, direction, n)[i] < sorted_positions(
                    keys,
                    direction,
                    n,
                )[j]
            },
    decreases n,
{
    if n > 0 {
        let placed = sorted_positions(keys, direction, (n - 1) as nat);
        let now = sorted_positions(keys, direction, n);
        let item = n - 1;
        lemma_sorted_positions_sorted(keys, direction, (n - 1) as nat);
        lemma_sorted_positions_in_range(keys, direction, (n - 1) as nat);
        lemma_sorted_positions_in_range(keys, direction, n);
        lemma_insertion_point(keys, direction, placed, item, placed.len());
        let p = insertion_point(keys, direction, placed, item, placed.len()) as int;
        assert forall|k: int| 0 <= k < p implies not_after(keys, direction, placed[k] as int, item) by {
            if k < p - 1 {
                assert(not_after(keys, direction, placed[k] as int, placed[p - 1] as int));
                assert(not_after(keys, direction, placed[p - 1] as int, item));
            }
        }
        assert forall|i: int, j: int| 0 <= i < j < n implies {
            &&& #[trigger] not_after(keys, direction, now[i] as int, now[j] as int)
            &&& tied(keys, direction, now[i] as int, now[j] as int) ==> now[i] < now[j]
        } by {
            let i0 = if i < p { i } else { i - 1 };
            let j0 = if j < p { j } else { j - 1 };
            if i != p && j != p {
                assert(not_after(keys, direction, placed[i0] as int, placed[j0] as int));
            } else if i == p {
                assert(now[j] == placed[j0]);
                assert(!not_after(keys, direction, placed[j0] as int, item));
                assert(not_after(keys, direction, item, placed[j0] as int));
                assert(tied(keys, direction, item, placed[j0] as int) <==> tied(
                    keys,
                    direction,
                    placed[j0] as int,
                    item,
                ));
            } else {
                assert(now[i] == placed[i0]);
                assert(not_after(keys, direction, placed[i0] as int, item));
                assert(placed[i0] < item);
            }
        }
    }
}

/// The kind of a sort key: 0 for a missing key, 1 for a number, 2 for a
/// string, 3 for any other value.
pub open spec fn key_kind(key: Option<JsonModel>) -> int {
    match key {
        None => 0,
        Some(JsonModel::Number(_)) => 1,
        Some(JsonModel::String(_)) => 2,
        Some(_) => 3,
    }
}

/// Whether the keys that are there are all of one kind, and none is a NaN.
pub open spec fn uniform(keys: Seq<Option<JsonModel>>) -> bool {
    &&& forall|a: int|
        0 <= a < keys.len() ==> ((#[trigger] keys[a]) matches Some(JsonModel::Number(n))
            ==> !n.spec_as_scalar().spec_is_nan())
    &&& forall|a: int, b: int|
        0 <= a < keys.len() && 0 <= b < keys.len() && key_kind(#[trigger] keys[a]) != 0
            && key_kind(#[trigger] keys[b]) != 0 ==> key_kind(keys[a]) == key_kind(keys[b])
}

/// Exchanging two keys of one kind, neither a NaN, reverses their order.
proof fn lemma_key_order_reverse(a: Option<JsonModel>, b: Option<JsonModel>)
    requires
        key_kind(a) == 0 || key_kind(b) == 0 || key_kind(a) == key_kind(b),
        a matches Some(JsonModel::Number(n)) ==> !n.spec_as_scalar().spec_is_nan(),
        b matches Some(JsonModel::Number(n)) ==> !n.spec_as_scalar().spec_is_nan(),
    ensures
        key_order(b, a) == key_order(a, b).spec_reverse(),
{
    match (a, b) {
        (Some(JsonModel::String(x)), Some(JsonModel::String(y))) => {
            lemma_text_order_reverse(x, y);
        },
        _ => {},
    }
}

/// Among keys of one kind, none a NaN, "does not come after" carries over.
proof fn lemma_key_order_transitive(
    a: Option<JsonModel>,
    b: Option<JsonModel>,
    c: Option<JsonModel>,
)
    requires
        key_kind(a) == 0 || key_kind(b) == 0 || key_kind(a) == key_kind(b),
        key_kind(b) == 0 || key_kind(c) == 0 || key_kind(b) == key_kind(c),
        key_kind(a) == 0 || key_kind(c) == 0 || key_kind(a) == key_kind(c),
        a matches Some(JsonModel::Number(n)) ==> !n.spec_as_scalar().spec_is_nan(),
        b matches Some(JsonModel::Number(n)) ==> !n.spec_as_scalar().spec_is_nan(),
        c matches Some(JsonModel::Number(n)) ==> !n.spec_as_scalar().spec_is_nan(),
        key_order(a, b) != Order::Greater,
        key_order(b, c) != Order::Greater,
    ensures
        key_order(a, c) != Order::Greater,
{
    match (a, b, c) {
        (
            Some(JsonModel::String(x)),
            Some(JsonModel::String(y)),
            Some(JsonModel::String(z)),
        ) => {
            lemma_text_order_transitive(x, y, z);
        },
        _ => {},
    }
}

/// The comparison of keys that are all of one kind, none a NaN, is an
/// order, in either direction.
pub proof fn lemma_uniform_is_orderly(keys: Seq<Option<JsonModel>>, direction: SortDirection)
    requires
        uniform(keys),
    ensures
        orderly(keys, direction),
{
    assert forall|a: int, b: int| 0 <= a < keys.len() && 0 <= b < keys.len() implies (
    #[trigger] not_after(keys, direction, a, b) <==> !not_after(keys, direction, b, a) || tied(
        keys,
        direction,
        a,
        b,
    )) by {
        lemma_key_order_reverse(keys[a], keys[b]);
    }
    assert forall|a: int, b: int| 0 <= a < keys.len() && 0 <= b < keys.len() implies (
    #[trigger] tied(keys, direction, a, b) <==> tied(keys, direction, b, a)) by {
        lemma_key_order_reverse(keys[a], keys[b]);
    }
    assert forall|a: int, b: int, c: int|
        0 <= a < keys.len() && 0 <= b < keys.len() && 0 <= c < keys.len() && #[trigger] not_after(
            keys,
            direction,
            a,
            b,
        ) && #[trigger] not_after(keys, direction, b, c) implies not_after(
        keys,
        direction,
        a,
        c,
    ) by {
        lemma_key_order_reverse(keys[a], keys[b]);
        lemma_key_order_reverse(keys[b], keys[c]);
        lemma_key_order_reverse(keys[a], keys[c]);
        match direction {
            SortDirection::Asc => {
                lemma_key_order_transitive(keys[a], keys[b], keys[c]);
            },
            SortDirection::Desc => {
                lemma_key_order_transitive(keys[c], keys[b], keys[a]);
            },
        }
    }
}

/// Filtering keeps entities of the sequence that pass the test, all of
/// them, and in increasing index order if they were in that order.
proof fn lemma_filter_keeps_order(entities: Seq<EntityId>, test: spec_fn(EntityId) -> bool)
    requires
        forall|k: int, l: int|
            0 <= k < l < entities.len() ==> (#[trigger] entities[k]).spec_index() < (
            #[trigger] entities[l]).spec_index(),
    ensures
        entities.filter(test).len() <= entities.len(),
        forall|k: int|
            0 <= k < entities.filter(test).len() ==> test(#[trigger] entities.filter(test)[k])
                && entities.contains(entities.filter(test)[k]),
        forall|k: int|
            0 <= k < entities.len() && test(entities[k]) ==> entities.filter(test).contains(
                #[trigger] entities[k],
            ),
        forall|k: int, l: int|
            0 <= k < l < entities.filter(test).len() ==> (#[trigger] entities.filter(
                test,
            )[k]).spec_index() < (#[trigger] entities.filter(test)[l]).spec_index(),
    decreases entities.len(),
{
    reveal(Seq::filter);
    if entities.len() > 0 {
        let shorter = entities.drop_last();
        let last = entities.last();
        lemma_filter_keeps_order(shorter, test);
        let kept = shorter.filter(test);
        let now = entities.filter(test);
        assert forall|k: int| 0 <= k < now.len() implies test(#[trigger] now[k])
            && entities.contains(now[k]) by {
            if k < kept.len() {
                let i = choose|i: int| 0 <= i < shorter.len() && shorter[i] == kept[k];
                assert(entities[i] == now[k]);
            } else {
                assert(entities[entities.len() - 1] == now[k]);
            }
        }
        assert forall|k: int| 0 <= k < entities.len() && test(entities[k]) implies now.contains(
            #[trigger] entities[k],
        ) by {
            if k < shorter.len() {
                assert(shorter[k] == entities[k]);
                let i = choose|i: int| 0 <= i < kept.len() && kept[i] == shorter[k];
                assert(now[i] == entities[k]);
            } else {
                assert(now[now.len() - 1] == entities[k]);
            }
        }
        assert forall|k: int, l: int| 0 <= k < l < now.len() implies (
        #[trigger] now[k]).spec_index() < (#[trigger] now[l]).spec_index() by {
            if l >= kept.len() {
                let i = choose|i: int| 0 <= i < shorter.len() && shorter[i] == kept[k];
                assert(entities[i].spec_index() < entities[entities.len() - 1].spec_index());
            }
        }
    }
}

/// What the candidates of a query are: alive entities that match, all of
/// them, in increasing index order.
pub proof fn lemma_candidates(view: WorldView, query: QueryDescriptor)
    requires
        view.valid(),
    ensures
        candidates(view, query).len() <= view.alive_count(),
        forall|k: int|
            0 <= k < candidates(view, query).len() ==> {
                &&& view.is_alive(#[trigger] candidates(view, query)[k])
                &&& is_match(view, query, candidates(view, query)[k])
            },
        forall|entity: EntityId|
            view.is_alive(entity) && is_match(view, query, entity) ==> #[trigger] candidates(
                view,
                query,
            ).contains(entity),
        forall|k: int, l: int|
            0 <= k < l < candidates(view, query).len() ==> (#[trigger] candidates(
                view,
                query,
            )[k]).spec_index() < (#[trigger] candidates(view, query)[l]).spec_index(),
{
    lemma_alive_entities(view);
    let alive = view.alive_entities();
    let test = matcher(view, query);
    lemma_filter_keeps_order(alive, test);
    assert forall|k: int| 0 <= k < candidates(view, query).len() implies {
        &&& view.is_alive(#[trigger] candidates(view, query)[k])
        &&& is_match(view, query, candidates(view, query)[k])
    } by {
        let entity = candidates(view, query)[k];
        assert(test(entity));
        let i = choose|i: int| 0 <= i < alive.len() && alive[i] == entity;
        assert(view.is_alive(alive[i]));
    }
    assert forall|entity: EntityId|
        view.is_alive(entity) && is_match(view, query, entity) implies #[trigger] candidates(
        view,
        query,
    ).contains(entity) by {
        assert(alive.contains(entity));
        let i = choose|i: int| 0 <= i < alive.len() && alive[i] == entity;
        assert(test(alive[i]));
    }
}

/// What the result of a query holds: one row for each candidate up to the
/// limit, and the number of all candidates.
pub proof fn lemma_query_result(view: WorldView, query: QueryDescriptor)
    requires
        candidates(view, query).len() <= usize::MAX,
    ensures
        query_result(view, query).total_count == candidates(view, query).len(),
        query_result(view, query).rows.len() == (match query.limit {
            Some(n) => if n < candidates(view, query).len() {
                n as nat
            } else {
                candidates(view, query).len()
            },
            None => candidates(view, query).len(),
        }),
        query.order_by is None ==> forall|k: int|
            0 <= k < query_result(view, query).rows.len() ==> #[trigger] query_result(
                view,
                query,
            ).rows[k] == row_of(view, query, candidates(view, query)[k]),
{
    match query.order_by {
        Some(order) => {
            lemma_sorted_positions_in_range(
                sort_keys(view, order.field@, candidates(view, query)),
                order.direction,
                candidates(view, query).len(),
            );
        },
        None => {},
    }
}

/// Whether every number of a transform is finite.
pub open spec fn is_finite_transform(t: Transform) -> bool {
    &&& t.position.x.spec_is_finite()
    &&& t.position.y.spec_is_finite()
    &&& t.position.z.spec_is_finite()
    &&& t.rotation.x.spec_is_finite()
    &&& t.rotation.y.spec_is_finite()
    &&& t.rotation.z.spec_is_finite()
    &&& t.rotation.w.spec_is_finite()
    &&& t.scale.x.spec_is_finite()
    &&& t.scale.y.spec_is_finite()
    &&& t.scale.z.spec_is_finite()
}

/// Whether every transform of the given entities has finite numbers only.
pub open spec fn all_finite(view: WorldView, entities: Seq<EntityId>) -> bool {
    forall|i: int|
        0 <= i < entities.len() ==> (transform_of(view, #[trigger] entities[i]) matches Some(t)
            ==> is_finite_transform(t))
}

/// The values that one field has for entities whose transforms are finite
/// are all of one kind, and none is a NaN.
pub proof fn lemma_sort_keys_uniform(view: WorldView, field: Seq<char>, entities: Seq<EntityId>)
    requires
        all_finite(view, entities),
    ensures
        uniform(sort_keys(view, field, entities)),
{
    let keys = sort_keys(view, field, entities);
    assert forall|a: int| 0 <= a < keys.len() implies ((#[trigger] keys[a]) matches Some(
        JsonModel::Number(n),
    ) ==> !n.spec_as_scalar().spec_is_nan()) by {
        assert(keys[a] == field_of(view, entities[a], field));
        match keys[a] {
            Some(JsonModel::Number(JsonNumber::Unsigned(u))) => {
                lemma_bits_of_u32(u);
            },
            _ => {},
        }
    }
    assert forall|a: int, b: int|
        0 <= a < keys.len() && 0 <= b < keys.len() && key_kind(#[trigger] keys[a]) != 0
            && key_kind(#[trigger] keys[b]) != 0 implies key_kind(keys[a]) == key_kind(keys[b]) by {
        assert(keys[a] == field_of(view, entities[a], field));
        assert(keys[b] == field_of(view, entities[b], field));
    }
}

/// The candidates of a query come out in the order of the field that the
/// query names, in its direction, and those whose values are tied in the
/// order of their indices, as long as the transforms of the candidates are
/// finite.
pub proof fn lemma_ordered_is_sorted(view: WorldView, query: QueryDescriptor)
    requires
        view.valid(),
        query.order_by is Some,
        all_finite(view, candidates(view, query)),
        candidates(view, query).len() <= usize::MAX,
    ensures
        ordered(view, query, candidates(view, query)).len() == candidates(view, query).len(),
        forall|i: int, j: int|
            0 <= i < j < candidates(view, query).len() ==> {
                let first = #[trigger] ordered(view, query, candidates(view, query))[i];
                let second = #[trigger] ordered(view, query, candidates(view, query))[j];
                let order = directed_order(
                    field_of(view, first, query.order_by->0.field@),
                    field_of(view, second, query.order_by->0.field@),
                    query.order_by->0.direction,
                );
                &&& order != Order::Greater
                &&& order == Order::Equal ==> first.spec_index() < second.spec_index()
            },
{
    let entities = candidates(view, query);
    let field = query.order_by->0.field@;
    let direction = query.order_by->0.direction;
    let keys = sort_keys(view, field, entities);
    let positions = sorted_positions(keys, direction, entities.len());
    lemma_candidates(view, query);
    lemma_sort_keys_uniform(view, field, entities);
    lemma_uniform_is_orderly(keys, direction);
    lemma_sorted_positions_in_range(keys, direction, entities.len());
    lemma_sorted_positions_sorted(keys, direction, entities.len());
    assert forall|i: int, j: int| 0 <= i < j < entities.len() implies {
        let first = #[trigger] ordered(view, query, entities)[i];
        let second = #[trigger] ordered(view, query, entities)[j];
        let order = directed_order(
            field_of(view, first, field),
            field_of(view, second, field),
            direction,
        );
        &&& order != Order::Greater
        &&& order == Order::Equal ==> first.spec_index() < second.spec_index()
    } by {
        let p = positions[i] as int;
        let q = positions[j] as int;
        assert(ordered(view, query, entities)[i] == entities[p]);
        assert(ordered(view, query, entities)[j] == entities[q]);
        assert(keys[p] == field_of(view, entities[p], field));
        assert(keys[q] == field_of(view, entities[q], field));
        assert(not_after(keys, direction, p, q));
        if tied(keys, direction, p, q) {
            assert(p < q);
            assert(entities[p].spec_index() < entities[q].spec_index());
        }
    }
}

} // verus!
