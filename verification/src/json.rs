use crate::scalar::{Order, Scalar};
use crate::text::same_text;
use vstd::prelude::*;
use vstd::std_specs::cmp::PartialEqSpecImpl;

verus! {

/// A number of a JSON-like value: an unsigned integer, which is how ids are
/// written, or a binary64 number.
#[derive(Debug, Clone, Copy)]
pub enum JsonNumber {
    Unsigned(u32),
    Real(Scalar),
}

impl PartialEq for JsonNumber {
    fn eq(&self, other: &JsonNumber) -> (r: bool) {
        match (self, other) {
            (JsonNumber::Unsigned(a), JsonNumber::Unsigned(b)) => *a == *b,
            (JsonNumber::Real(x), JsonNumber::Real(y)) => matches!(x.order(y), Some(Order::Equal)),
            _ => false,
        }
    }
}

impl PartialEqSpecImpl for JsonNumber {
    open spec fn obeys_eq_spec() -> bool {
        true
    }

    open spec fn eq_spec(&self, other: &JsonNumber) -> bool {
        self.same(*other)
    }
}

/// Whether two members of objects are equal: both null, or equal numbers.
pub open spec fn same_member(a: Option<JsonNumber>, b: Option<JsonNumber>) -> bool {
    match (a, b) {
        (None, None) => true,
        (Some(x), Some(y)) => x.same(y),
        _ => false,
    }
}

/// The members of an object as a map from names to members. Of several
/// members with one name, the last counts.
pub open spec fn members_map(members: Seq<(Seq<char>, Option<JsonNumber>)>) -> Map<
    Seq<char>,
    Option<JsonNumber>,
>
    decreases members.len(),
{
    if members.len() == 0 {
        Map::empty()
    } else {
        members_map(members.drop_last()).insert(members.last().0, members.last().1)
    }
}

/// Whether every name of the first map is a name of the second, with an
/// equal member.
pub open spec fn members_within(
    a: Map<Seq<char>, Option<JsonNumber>>,
    b: Map<Seq<char>, Option<JsonNumber>>,
) -> bool {
    forall|name: Seq<char>| #[trigger]
        a.contains_key(name) ==> b.contains_key(name) && same_member(a[name], b[name])
}

/// Whether two objects are equal: they have the same names, each with
/// equal members, in whatever order the members stand.
pub open spec fn same_members(
    a: Seq<(Seq<char>, Option<JsonNumber>)>,
    b: Seq<(Seq<char>, Option<JsonNumber>)>,
) -> bool {
    members_within(members_map(a), members_map(b)) && members_within(
        members_map(b),
        members_map(a),
    )
}

/// The names of the map of an object are the names of its members.
pub proof fn lemma_members_map(members: Seq<(Seq<char>, Option<JsonNumber>)>)
    ensures
        forall|name: Seq<char>|
            #[trigger] members_map(members).contains_key(name) <==> exists|k: int|
                0 <= k < members.len() && (#[trigger] members[k]).0 == name,
    decreases members.len(),
{
    if members.len() > 0 {
        let shorter = members.drop_last();
        lemma_members_map(shorter);
        assert forall|name: Seq<char>| #[trigger]
            members_map(members).contains_key(name) implies exists|k: int|
            0 <= k < members.len() && (#[trigger] members[k]).0 == name by {
            if name == members.last().0 {
                assert(members[members.len() - 1].0 == name);
            } else {
                assert(members_map(shorter).contains_key(name));
                let k = choose|k: int| 0 <= k < shorter.len() && (#[trigger] shorter[k]).0 == name;
                assert(members[k].0 == name);
            }
        }
        assert forall|name: Seq<char>|
            (exists|k: int| 0 <= k < members.len() && (#[trigger] members[k]).0 == name)
            implies #[trigger] members_map(members).contains_key(name) by {
            let k = choose|k: int| 0 <= k < members.len() && (#[trigger] members[k]).0 == name;
            if k < shorter.len() {
                assert(shorter[k].0 == name);
                assert(members_map(shorter).contains_key(name));
            }
        }
    }
}

impl JsonNumber {
    /// Whether two numbers are equal: both unsigned integers and the same,
    /// or both binary64 numbers and equal as such. A NaN equals nothing.
    pub open spec fn same(self, other: JsonNumber) -> bool {
        match (self, other) {
            (JsonNumber::Unsigned(a), JsonNumber::Unsigned(b)) => a == b,
            (JsonNumber::Real(x), JsonNumber::Real(y)) => x.spec_order(&y) == Some(Order::Equal),
            _ => false,
        }
    }

    pub open spec fn spec_as_scalar(&self) -> Scalar {
        match self {
            JsonNumber::Unsigned(n) => Scalar::spec_from_u32(*n),
            JsonNumber::Real(x) => *x,
        }
    }

    /// The number as a binary64 number. No unsigned 32-bit integer loses
    /// anything on the way.
    #[verifier::when_used_as_spec(spec_as_scalar)]
    pub fn as_scalar(&self) -> (r: Scalar)
        ensures
            r == self.spec_as_scalar(),
    {
        match self {
            JsonNumber::Unsigned(n) => Scalar::from_u32(*n),
            JsonNumber::Real(x) => *x,
        }
    }

    /// The member of an object that stands for a binary64 number: the
    /// number if it is finite, null otherwise.
    pub open spec fn spec_member(x: Scalar) -> Option<JsonNumber> {
        if x.spec_is_finite() {
            Some(JsonNumber::Real(x))
        } else {
            None
        }
    }

    #[verifier::when_used_as_spec(spec_member)]
    pub fn member(x: Scalar) -> (r: Option<JsonNumber>)
        ensures
            r == Self::spec_member(x),
    {
        if x.is_finite() {
            Some(JsonNumber::Real(x))
        } else {
            None
        }
    }
}

/// A JSON-like value, as far as the values of queried fields go: null, a
/// truth value, a number, a string, or an object whose members are numbers
/// or null.
#[derive(Debug, Clone)]
pub enum JsonValue {
    Null,
    Bool(bool),
    Number(JsonNumber),
    String(String),
    Object(Vec<(String, Option<JsonNumber>)>),
}

/// The mathematical content of a [`JsonValue`].
pub ghost enum JsonModel {
    Null,
    Bool(bool),
    Number(JsonNumber),
    String(Seq<char>),
    Object(Seq<(Seq<char>, Option<JsonNumber>)>),
}

/// The members of an object by their contents.
pub open spec fn members_view(members: Seq<(String, Option<JsonNumber>)>) -> Seq<
    (Seq<char>, Option<JsonNumber>),
> {
    members.map_values(|member: (String, Option<JsonNumber>)| (member.0@, member.1))
}

impl View for JsonValue {
    type V = JsonModel;

    open spec fn view(&self) -> JsonModel {
        match self {
            JsonValue::Null => JsonModel::Null,
            JsonValue::Bool(b) => JsonModel::Bool(*b),
            JsonValue::Number(n) => JsonModel::Number(*n),
            JsonValue::String(s) => JsonModel::String(s@),
            JsonValue::Object(members) => JsonModel::Object(members_view(members@)),
        }
    }
}

impl JsonModel {
    /// Whether two values are equal: of one kind and, within it, equal as
    /// truth values, numbers, strings or objects. The order of the members
    /// of an object does not count.
    pub open spec fn same(self, other: JsonModel) -> bool {
        match (self, other) {
            (JsonModel::Null, JsonModel::Null) => true,
            (JsonModel::Bool(a), JsonModel::Bool(b)) => a == b,
            (JsonModel::Number(a), JsonModel::Number(b)) => a.same(b),
            (JsonModel::String(a), JsonModel::String(b)) => a == b,
            (JsonModel::Object(a), JsonModel::Object(b)) => same_members(a, b),
            _ => false,
        }
    }

    /// The value that stands for a binary64 number: the number if it is
    /// finite, null otherwise.
    pub open spec fn of_scalar(x: Scalar) -> JsonModel {
        if x.spec_is_finite() {
            JsonModel::Number(JsonNumber::Real(x))
        } else {
            JsonModel::Null
        }
    }
}

/// The member that counts under a name among the members of an object.
fn member_of(members: &Vec<(String, Option<JsonNumber>)>, name: &str) -> (r: Option<
    Option<JsonNumber>,
>)
    ensures
        match r {
            Some(member) => members_map(members_view(members@)).contains_key(name@)
                && members_map(members_view(members@))[name@] == member,
            None => !members_map(members_view(members@)).contains_key(name@),
        },
{
    let mut found: Option<Option<JsonNumber>> = None;
    let mut i: usize = 0;
    while i < members.len()
        invariant
            i <= members@.len(),
            match found {
                Some(member) => members_map(members_view(members@).take(i as int)).contains_key(
                    name@,
                ) && members_map(members_view(members@).take(i as int))[name@] == member,
                None => !members_map(members_view(members@).take(i as int)).contains_key(name@),
            },
        decreases members@.len() - i,
    {
        proof {
            let longer = members_view(members@).take(i + 1);
            assert(longer.drop_last() =~= members_view(members@).take(i as int));
            assert(longer.last() == (members@[i as int].0@, members@[i as int].1));
        }
        if same_text(members[i].0.as_str(), name) {
            found = Some(members[i].1);
        }
        i += 1;
    }
    assert(members_view(members@).take(i as int) =~= members_view(members@));
    found
}

/// Whether every name of the first object is a name of the second, with
/// an equal member.
fn members_are_within(
    a: &Vec<(String, Option<JsonNumber>)>,
    b: &Vec<(String, Option<JsonNumber>)>,
) -> (r: bool)
    ensures
        r == members_within(members_map(members_view(a@)), members_map(members_view(b@))),
{
    let ghost map_a = members_map(members_view(a@));
    let ghost map_b = members_map(members_view(b@));
    proof {
        lemma_members_map(members_view(a@));
    }
    let mut i: usize = 0;
    while i < a.len()
        invariant
            i <= a@.len(),
            map_a == members_map(members_view(a@)),
            map_b == members_map(members_view(b@)),
            forall|k: int|
                0 <= k < i ==> map_b.contains_key((#[trigger] members_view(a@)[k]).0) && same_member(
                    map_a[members_view(a@)[k].0],
                    map_b[members_view(a@)[k].0],
                ),
        decreases a@.len() - i,
    {
        let name = a[i].0.as_str();
        assert(members_view(a@)[i as int].0 == name@);
        let mine = member_of(a, name);
        let theirs = member_of(b, name);
        let equal = match (mine, theirs) {
            (Some(None), Some(None)) => true,
            (Some(Some(x)), Some(Some(y))) => x == y,
            _ => false,
        };
        if !equal {
            proof {
                lemma_members_map(members_view(a@));
                assert(map_a.contains_key(name@));
            }
            return false;
        }
        i += 1;
    }
    proof {
        lemma_members_map(members_view(a@));
        assert forall|name: Seq<char>| #[trigger] map_a.contains_key(name) implies map_b.contains_key(
            name,
        ) && same_member(map_a[name], map_b[name]) by {
            let k = choose|k: int|
                0 <= k < members_view(a@).len() && (#[trigger] members_view(a@)[k]).0 == name;
            assert(map_b.contains_key(members_view(a@)[k].0));
        }
    }
    true
}

impl PartialEq for JsonValue {
    fn eq(&self, other: &JsonValue) -> (r: bool) {
        match (self, other) {
            (JsonValue::Null, JsonValue::Null) => true,
            (JsonValue::Bool(a), JsonValue::Bool(b)) => *a == *b,
            (JsonValue::Number(a), JsonValue::Number(b)) => *a == *b,
            (JsonValue::String(a), JsonValue::String(b)) => same_text(a.as_str(), b.as_str()),
            (JsonValue::Object(a), JsonValue::Object(b)) => members_are_within(a, b)
                && members_are_within(b, a),
            _ => false,
        }
    }
}

impl PartialEqSpecImpl for JsonValue {
    open spec fn obeys_eq_spec() -> bool {
        true
    }

    open spec fn eq_spec(&self, other: &JsonValue) -> bool {
        self@.same(other@)
    }
}

impl JsonValue {
    /// The value of an unsigned integer.
    pub fn from_u32(n: u32) -> (r: Self)
        ensures
            r@ == JsonModel::Number(JsonNumber::Unsigned(n)),
    {
        JsonValue::Number(JsonNumber::Unsigned(n))
    }

    /// The value of a binary64 number: null unless the number is finite.
    pub fn from_scalar(x: Scalar) -> (r: Self)
        ensures
            r@ == JsonModel::of_scalar(x),
    {
        if x.is_finite() {
            JsonValue::Number(JsonNumber::Real(x))
        } else {
            JsonValue::Null
        }
    }

    /// The value of a string.
    pub fn from_text(s: &str) -> (r: Self)
        ensures
            r@ == JsonModel::String(s@),
    {
        JsonValue::String(s.to_owned())
    }

    /// A copy of the value.
    pub fn duplicate(&self) -> (r: Self)
        ensures
            r@ == self@,
    {
        match self {
            JsonValue::Null => JsonValue::Null,
            JsonValue::Bool(b) => JsonValue::Bool(*b),
            JsonValue::Number(n) => JsonValue::Number(*n),
            JsonValue::String(s) => JsonValue::String(s.clone()),
            JsonValue::Object(members) => {
                let mut copy: Vec<(String, Option<JsonNumber>)> = Vec::new();
                let mut i: usize = 0;
                while i < members.len()
                    invariant
                        i <= members@.len(),
                        members_view(copy@) == members_view(members@).take(i as int),
                    decreases members@.len() - i,
                {
                    let ghost before = copy@;
                    copy.push((members[i].0.clone(), members[i].1));
                    proof {
                        let wanted = members_view(members@).take(i + 1);
                        assert(members_view(before) == members_view(members@).take(i as int));
                        assert(members_view(copy@).len() == wanted.len());
                        assert forall|k: int| 0 <= k < wanted.len() implies members_view(copy@)[k]
                            == wanted[k] by {
                            if k < i {
                                assert(members_view(before)[k] == members_view(members@).take(
                                    i as int,
                                )[k]);
                            }
                        }
                        assert(members_view(copy@) =~= wanted);
                    }
                    i += 1;
                }
                assert(members_view(members@).take(i as int) =~= members_view(members@));
                JsonValue::Object(copy)
            },
        }
    }
}

/// The fields of a result row: values by name, each name once.
#[derive(Debug)]
pub struct FieldMap {
    entries: Vec<(String, JsonValue)>,
}

/// The position of the first entry with the given name, if there is one.
pub open spec fn position_of(entries: Seq<(String, JsonValue)>, name: Seq<char>) -> Option<int> {
    if exists|i: int| 0 <= i < entries.len() && (#[trigger] entries[i]).0@ == name {
        Some(choose|i: int| 0 <= i < entries.len() && (#[trigger] entries[i]).0@ == name)
    } else {
        None
    }
}

/// Whether no two entries have one name.
pub open spec fn distinct_names(entries: Seq<(String, JsonValue)>) -> bool {
    forall|i: int, j: int|
        0 <= i < j < entries.len() ==> (#[trigger] entries[i]).0@ != (#[trigger] entries[j]).0@
}

/// Entries that differ from entries with distinct names in their values
/// alone have distinct names, and each name at the same position.
proof fn lemma_same_names(before: Seq<(String, JsonValue)>, after: Seq<(String, JsonValue)>)
    requires
        distinct_names(before),
        after.len() == before.len(),
        forall|k: int| 0 <= k < before.len() ==> (#[trigger] after[k]).0@ == before[k].0@,
    ensures
        distinct_names(after),
        forall|name: Seq<char>| position_of(after, name) == position_of(before, name),
{
    assert forall|i: int, j: int| 0 <= i < j < after.len() implies (#[trigger] after[i]).0@ != (
    #[trigger] after[j]).0@ by {
        assert(before[i].0@ != before[j].0@);
    }
    assert forall|name: Seq<char>| position_of(after, name) == position_of(before, name) by {
        if position_of(before, name) is Some {
            let p = position_of(before, name)->0;
            assert(after[p].0@ == name);
            let q = position_of(after, name)->0;
            assert(before[q].0@ == name);
            if q < p {
                assert(before[q].0@ != before[p].0@);
            } else if p < q {
                assert(before[p].0@ != before[q].0@);
            }
        } else if position_of(after, name) is Some {
            let q = position_of(after, name)->0;
            assert(before[q].0@ == name);
        }
    }
}

/// Entries with distinct names, with one more entry under a new name,
/// have distinct names: the new name at the last position, and each other
/// name where it was.
proof fn lemma_new_name(
    before: Seq<(String, JsonValue)>,
    after: Seq<(String, JsonValue)>,
    name: Seq<char>,
)
    requires
        distinct_names(before),
        position_of(before, name) is None,
        after.len() == before.len() + 1,
        forall|k: int| 0 <= k < before.len() ==> (#[trigger] after[k]).0@ == before[k].0@,
        after[before.len() as int].0@ == name,
    ensures
        distinct_names(after),
        position_of(after, name) == Some(before.len() as int),
        forall|other: Seq<char>|
            other != name ==> position_of(after, other) == position_of(before, other),
{
    let last = before.len() as int;
    assert forall|i: int, j: int| 0 <= i < j < after.len() implies (#[trigger] after[i]).0@ != (
    #[trigger] after[j]).0@ by {
        if j == last {
            assert(before[i].0@ != name);
        } else {
            assert(before[i].0@ != before[j].0@);
        }
    }
    assert(position_of(after, name) == Some(last)) by {
        assert(after[last].0@ == name);
        let q = position_of(after, name)->0;
        if q != last {
            assert(before[q].0@ == name);
        }
    }
    assert forall|other: Seq<char>| other != name implies position_of(after, other)
        == position_of(before, other) by {
        if position_of(before, other) is Some {
            let p = position_of(before, other)->0;
            assert(after[p].0@ == other);
            let q = position_of(after, other)->0;
            assert(before[q].0@ == other);
            if q < p {
                assert(before[q].0@ != before[p].0@);
            } else if p < q {
                assert(before[p].0@ != before[q].0@);
            }
        } else if position_of(after, other) is Some {
            let q = position_of(after, other)->0;
            assert(before[q].0@ == other);
        }
    }
}

impl View for FieldMap {
    type V = Map<Seq<char>, JsonModel>;

    closed spec fn view(&self) -> Map<Seq<char>, JsonModel> {
        Map::new(
            |name: Seq<char>| position_of(self.entries@, name) is Some,
            |name: Seq<char>| self.entries@[position_of(self.entries@, name)->0].1@,
        )
    }
}

impl FieldMap {
    #[verifier::type_invariant]
    spec fn names_differ(&self) -> bool {
        distinct_names(self.entries@)
    }

    /// The names and values in the order in which the names came in.
    pub closed spec fn entries(&self) -> Seq<(Seq<char>, JsonModel)> {
        self.entries@.map_values(|entry: (String, JsonValue)| (entry.0@, entry.1@))
    }

    /// The names in the order in which they came in.
    pub open spec fn names(&self) -> Seq<Seq<char>> {
        self.entries().map_values(|entry: (Seq<char>, JsonModel)| entry.0)
    }

    /// Whether the entries and the map agree: the entries hold each name
    /// of the map once, with the value that the map has for it.
    pub open spec fn agrees(&self) -> bool {
        &&& self.names().no_duplicates()
        &&& forall|i: int|
            0 <= i < self.entries().len() ==> self@.contains_key((#[trigger] self.entries()[i]).0)
                && self@[self.entries()[i].0] == self.entries()[i].1
        &&& forall|name: Seq<char>| #[trigger]
            self@.contains_key(name) ==> self.names().contains(name)
    }

    /// The entries and the map of every field map agree.
    pub fn confirm(&self)
        ensures
            self.agrees(),
    {
        proof {
            use_type_invariant(self);
            let entries = self.entries@;
            assert forall|i: int| 0 <= i < self.entries().len() implies self@.contains_key(
                (#[trigger] self.entries()[i]).0,
            ) && self@[self.entries()[i].0] == self.entries()[i].1 by {
                let name = entries[i].0@;
                let p = position_of(entries, name)->0;
                if p < i {
                    assert(entries[p].0@ != entries[i].0@);
                } else if i < p {
                    assert(entries[i].0@ != entries[p].0@);
                }
            }
            assert forall|name: Seq<char>| #[trigger] self@.contains_key(name) implies self.names().contains(
                name,
            ) by {
                let p = position_of(entries, name)->0;
                assert(self.names()[p] == name);
            }
            assert forall|i: int, j: int|
                0 <= i < self.names().len() && 0 <= j < self.names().len() && i != j implies self.names()[i]
                != self.names()[j] by {
                if i < j {
                    assert(entries[i].0@ != entries[j].0@);
                } else {
                    assert(entries[j].0@ != entries[i].0@);
                }
            }
        }
    }

    pub fn new() -> (r: Self)
        ensures
            r@ == Map::<Seq<char>, JsonModel>::empty(),
            r.entries() == Seq::<(Seq<char>, JsonModel)>::empty(),
    {
        let r = FieldMap { entries: Vec::new() };
        assert(r@ =~= Map::<Seq<char>, JsonModel>::empty());
        assert(r.entries() =~= Seq::<(Seq<char>, JsonModel)>::empty());
        r
    }

    /// Number of names.
    pub fn len(&self) -> (r: usize)
        ensures
            r == self.entries().len(),
    {
        self.entries.len()
    }

    /// The name and value at a position in the order in which the names came in.
    pub fn entry(&self, position: usize) -> (r: Option<(&str, &JsonValue)>)
        ensures
            match r {
                Some((name, value)) => position < self.entries().len() && name@
                    == self.entries()[position as int].0 && value@
                    == self.entries()[position as int].1,
                None => position >= self.entries().len(),
            },
    {
        if position < self.entries.len() {
            Some((self.entries[position].0.as_str(), &self.entries[position].1))
        } else {
            None
        }
    }

    fn find(&self, name: &str) -> (r: Option<usize>)
        ensures
            match r {
                Some(i) => i < self.entries@.len() && self.entries@[i as int].0@ == name@
                    && position_of(self.entries@, name@) == Some(i as int),
                None => position_of(self.entries@, name@) is None,
            },
    {
        proof {
            use_type_invariant(self);
        }
        let mut i: usize = 0;
        while i < self.entries.len()
            invariant
                self.names_differ(),
                i <= self.entries@.len(),
                forall|k: int| 0 <= k < i ==> (#[trigger] self.entries@[k]).0@ != name@,
            decreases self.entries@.len() - i,
        {
            if same_text(self.entries[i].0.as_str(), name) {
                proof {
                    let p = position_of(self.entries@, name@)->0;
                    if p < i {
                    } else if p > i {
                        assert(self.entries@[i as int].0@ != self.entries@[p].0@);
                    }
                }
                return Some(i);
            }
            i += 1;
        }
        None
    }

    /// Sets the value of a name. A name that is new comes last in the
    /// order of the names; a name that is there keeps its place.
    pub fn insert(&mut self, name: String, value: JsonValue)
        ensures
            final(self)@ == old(self)@.insert(name@, value@),
            final(self).names() == if old(self)@.contains_key(name@) {
                old(self).names()
            } else {
                old(self).names().push(name@)
            },
            final(self).agrees(),
    {
        proof {
            use_type_invariant(&*self);
        }
        let found = self.find(name.as_str());
        match found {
            Some(i) => {
                let ghost before = self.entries@;
                let mut taken = FieldMap { entries: Vec::new() };
                std::mem::swap(self, &mut taken);
                let mut entries = taken.entries;
                entries[i] = (name, value);
                proof {
                    lemma_same_names(before, entries@);
                }
                *self = FieldMap { entries };
                assert(final(self)@ =~= old(self)@.insert(name@, value@));
                assert(final(self).names() =~= old(self).names());
            },
            None => {
                let ghost before = self.entries@;
                let mut taken = FieldMap { entries: Vec::new() };
                std::mem::swap(self, &mut taken);
                let mut entries = taken.entries;
                entries.push((name, value));
                proof {
                    lemma_new_name(before, entries@, name@);
                }
                *self = FieldMap { entries };
                assert(final(self)@ =~= old(self)@.insert(name@, value@));
                assert(final(self).names() =~= old(self).names().push(name@));
            },
        }
        self.confirm();
    }

    /// The value of a name, if it has one.
    pub fn get(&self, name: &str) -> (r: Option<&JsonValue>)
        ensures
            match r {
                Some(value) => self@.contains_key(name@) && value@ == self@[name@],
                None => !self@.contains_key(name@),
            },
    {
        match self.find(name) {
            Some(i) => Some(&self.entries[i].1),
            None => None,
        }
    }
}

/// Whether every name of the first map is a name of the second, with an
/// equal value.
pub open spec fn fields_within(
    a: Map<Seq<char>, JsonModel>,
    b: Map<Seq<char>, JsonModel>,
) -> bool {
    forall|name: Seq<char>| #[trigger]
        a.contains_key(name) ==> b.contains_key(name) && a[name].same(b[name])
}

/// Whether two maps of fields are equal: they have the same names, each
/// with equal values.
pub open spec fn same_fields(a: Map<Seq<char>, JsonModel>, b: Map<Seq<char>, JsonModel>) -> bool {
    fields_within(a, b) && fields_within(b, a)
}

impl FieldMap {
    /// Whether every name of this map is a name of the other, with an
    /// equal value.
    fn is_within(&self, other: &FieldMap) -> (r: bool)
        ensures
            r == fields_within(self@, other@),
    {
        self.confirm();
        let mut i: usize = 0;
        while i < self.entries.len()
            invariant
                self.agrees(),
                i <= self.entries@.len(),
                self.entries().len() == self.entries@.len(),
                forall|k: int|
                    0 <= k < self.entries@.len() ==> (#[trigger] self.entries()[k]) == (
                        self.entries@[k].0@,
                        self.entries@[k].1@,
                    ),
                forall|k: int|
                    0 <= k < i ==> other@.contains_key((#[trigger] self.entries()[k]).0)
                        && self.entries()[k].1.same(other@[self.entries()[k].0]),
            decreases self.entries@.len() - i,
        {
            let equal = match other.get(self.entries[i].0.as_str()) {
                Some(value) => self.entries[i].1 == *value,
                None => false,
            };
            if !equal {
                assert(self@.contains_key(self.entries()[i as int].0));
                return false;
            }
            i += 1;
        }
        proof {
            assert forall|name: Seq<char>| #[trigger] self@.contains_key(name) implies other@.contains_key(
                name,
            ) && self@[name].same(other@[name]) by {
                assert(self.names().contains(name));
                let k = choose|k: int| 0 <= k < self.names().len() && self.names()[k] == name;
                assert(self.entries()[k].0 == name);
            }
        }
        true
    }
}

impl PartialEq for FieldMap {
    fn eq(&self, other: &FieldMap) -> (r: bool) {
        self.is_within(other) && other.is_within(self)
    }
}

impl PartialEqSpecImpl for FieldMap {
    open spec fn obeys_eq_spec() -> bool {
        true
    }

    open spec fn eq_spec(&self, other: &FieldMap) -> bool {
        same_fields(self@, other@)
    }
}

impl Clone for FieldMap {
    fn clone(&self) -> (r: Self)
        ensures
            r@ == self@,
            r.entries() == self.entries(),
    {
        proof {
            use_type_invariant(self);
        }
        let mut entries: Vec<(String, JsonValue)> = Vec::new();
        let mut i: usize = 0;
        while i < self.entries.len()
            invariant
                self.names_differ(),
                i <= self.entries@.len(),
                entries@.len() == i,
                forall|k: int|
                    0 <= k < i ==> (#[trigger] entries@[k]).0@ == self.entries@[k].0@
                        && entries@[k].1@ == self.entries@[k].1@,
            decreases self.entries@.len() - i,
        {
            entries.push((self.entries[i].0.clone(), self.entries[i].1.duplicate()));
            i += 1;
        }
        proof {
            lemma_same_names(self.entries@, entries@);
        }
        let r = FieldMap { entries };
        assert(r@ =~= self@);
        assert(r.entries() =~= self.entries());
        r
    }
}

} // verus!
