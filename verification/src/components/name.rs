use crate::ecs::component::Component;
use crate::text::Text;
use vstd::prelude::*;

verus! {

/// The display name of an entity.
#[derive(Debug, Clone, PartialEq, Eq, Hash)]
pub struct Name {
    value: String,
}

impl View for Name {
    type V = Seq<char>;

    closed spec fn view(&self) -> Seq<char> {
        self.value@
    }
}

impl Name {
    pub fn new<S: Text>(name: S) -> (r: Self)
        ensures
            r@ == name.text(),
    {
        Name { value: name.to_text() }
    }

    /// The name as a string slice.
    pub fn as_str(&self) -> (r: &str)
        ensures
            r@ == self@,
    {
        self.value.as_str()
    }

    /// The name as an owned string.
    pub fn to_string(&self) -> (r: String)
        ensures
            r@ == self@,
    {
        self.value.clone()
    }
}

impl Default for Name {
    /// The name that an entity has before it is given one: "Entity".
    fn default() -> (r: Self)
        ensures
            r@ == "Entity"@,
    {
        Name::new("Entity")
    }
}

impl Component for Name {

}

} // verus!
