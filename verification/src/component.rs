//! Components that a program can use: their view symbols and properties.

use vstd::prelude::*;

use crate::ast::{views, Type};
use crate::model::TypeV;

verus! {

/// A property of a component.
#[derive(Debug, PartialEq, Eq)]
pub struct PropDef {
    pub name: String,
    pub ty: Type,
}

/// A component: its name, the symbol of its view function and its properties
/// in the order in which the view function takes them.
#[derive(Debug, PartialEq, Eq)]
pub struct ComponentDefinition {
    pub name: String,
    pub view_symbol: String,
    pub props: Vec<PropDef>,
}

/// View of [`PropDef`].
pub struct PropDefV {
    pub name: Seq<char>,
    pub ty: TypeV,
}

/// View of [`ComponentDefinition`].
pub struct ComponentDefinitionV {
    pub name: Seq<char>,
    pub view_symbol: Seq<char>,
    pub props: Seq<PropDefV>,
}

impl View for PropDef {
    type V = PropDefV;

    open spec fn view(&self) -> PropDefV {
        PropDefV { name: self.name@, ty: self.ty@ }
    }
}

impl View for ComponentDefinition {
    type V = ComponentDefinitionV;

    open spec fn view(&self) -> ComponentDefinitionV {
        ComponentDefinitionV {
            name: self.name@,
            view_symbol: self.view_symbol@,
            props: views(self.props@),
        }
    }
}

impl PropDef {
    pub fn copied(&self) -> (r: PropDef)
        ensures
            r@ == self@,
    {
        PropDef { name: self.name.clone(), ty: self.ty.copied() }
    }
}

/// The first property with a name.
pub open spec fn find_prop(props: Seq<PropDefV>, name: Seq<char>) -> Option<int>
    decreases props.len(),
{
    if props.len() == 0 {
        None
    } else {
        match find_prop(props.drop_last(), name) {
            Some(i) => Some(i),
            None => if props.last().name == name {
                Some(props.len() - 1)
            } else {
                None
            },
        }
    }
}

pub fn position_of_prop(props: &Vec<PropDef>, name: &String) -> (r: Option<usize>)
    ensures
        match r {
            Some(i) => i < props@.len() && find_prop(views(props@), name@) == Some(i as int),
            None => find_prop(views(props@), name@) is None,
        },
{
    let ghost all = views(props@);
    let mut found: Option<usize> = None;
    for i in 0..props.len()
        invariant
            all == views(props@),
            match found {
                Some(k) => k < props@.len() && find_prop(all.take(i as int), name@) == Some(
                    k as int,
                ),
                None => find_prop(all.take(i as int), name@) is None,
            },
    {
        proof {
            assert(all.take(i + 1).drop_last() =~= all.take(i as int));
        }
        if found.is_none() && props[i].name == *name {
            found = Some(i);
        }
    }
    assert(all.take(all.len() as int) =~= all);
    found
}

impl ComponentDefinition {
    /// The property called `name`, if the component has one.
    pub fn prop(&self, name: &String) -> (r: Option<&PropDef>)
        ensures
            match find_prop(self@.props, name@) {
                Some(i) => r is Some && r->0@ == self@.props[i],
                None => r is None,
            },
    {
        match position_of_prop(&self.props, name) {
            Some(i) => Some(&self.props[i]),
            None => None,
        }
    }

    pub fn prop_count(&self) -> (n: usize)
        ensures
            n == self@.props.len(),
    {
        self.props.len()
    }
}

/// The definition of a component in a list of definitions.
pub open spec fn lookup(s: Seq<ComponentDefinitionV>, name: Seq<char>) -> Option<
    ComponentDefinitionV,
>
    decreases s.len(),
{
    if s.len() == 0 {
        None
    } else {
        match lookup(s.drop_last(), name) {
            Some(d) => Some(d),
            None => if s.last().name == name {
                Some(s.last())
            } else {
                None
            },
        }
    }
}

/// Whether a component of this name is in a list of definitions.
pub open spec fn knows(s: Seq<ComponentDefinitionV>, name: Seq<char>) -> bool {
    lookup(s, name) is Some
}

/// A list of definitions after `d` was registered: `d` takes the place of a
/// definition with its name, or goes to the end.
pub open spec fn registered(s: Seq<ComponentDefinitionV>, d: ComponentDefinitionV) -> Seq<
    ComponentDefinitionV,
>
    decreases s.len(),
{
    if s.len() == 0 {
        seq![d]
    } else if knows(s.drop_last(), d.name) {
        registered(s.drop_last(), d).push(s.last())
    } else if s.last().name == d.name {
        s.drop_last().push(d)
    } else {
        s.push(d)
    }
}

/// The components that are known.
#[derive(Debug, PartialEq, Eq)]
pub struct ComponentRegistry {
    pub definitions: Vec<ComponentDefinition>,
}

impl View for ComponentRegistry {
    type V = Seq<ComponentDefinitionV>;

    open spec fn view(&self) -> Seq<ComponentDefinitionV> {
        views(self.definitions@)
    }
}

impl ComponentRegistry {
    pub fn new() -> (r: ComponentRegistry)
        ensures
            r@ == Seq::<ComponentDefinitionV>::empty(),
    {
        let r = ComponentRegistry { definitions: Vec::new() };
        assert(r@ =~= Seq::<ComponentDefinitionV>::empty());
        r
    }

    fn position(&self, name: &String) -> (r: Option<usize>)
        ensures
            match r {
                Some(i) => i < self.definitions@.len() && lookup(self@, name@) == Some(
                    self@[i as int],
                ) && self@[i as int].name == name@ && lookup(self@.take(i as int), name@) is None,
                None => lookup(self@, name@) is None,
            },
    {
        let ghost all = self@;
        let mut i: usize = 0;
        assert(all.take(0) =~= Seq::<ComponentDefinitionV>::empty());
        while i < self.definitions.len()
            invariant
                i <= self.definitions@.len(),
                all == self@,
                lookup(all.take(i as int), name@) is None,
            decreases self.definitions@.len() - i,
        {
            proof {
                assert(all.take(i + 1).drop_last() =~= all.take(i as int));
            }
            if self.definitions[i].name == *name {
                proof {
                    lookup_stable(all, i + 1, name@);
                }
                return Some(i);
            }
            i = i + 1;
        }
        assert(all.take(all.len() as int) =~= all);
        None
    }

    /// The definition of the component called `name`.
    pub fn get_by_name(&self, name: &String) -> (r: Option<&ComponentDefinition>)
        ensures
            match r {
                Some(d) => lookup(self@, name@) == Some(d@),
                None => lookup(self@, name@) is None,
            },
    {
        match self.position(name) {
            Some(i) => Some(&self.definitions[i]),
            None => None,
        }
    }

    /// Add a definition; one with the same name is replaced.
    pub fn register(&mut self, d: ComponentDefinition)
        ensures
            final(self)@ == registered(old(self)@, d@),
    {
        let ghost before = self@;
        match self.position(&d.name) {
            Some(i) => {
                proof {
                    registered_at(before, i as int, d@);
                }
                self.definitions.set(i, d);
                assert(self@ =~= before.update(i as int, d@));
            },
            None => {
                proof {
                    registered_new(before, d@);
                }
                self.definitions.push(d);
                assert(self@ =~= before.push(d@));
            },
        }
    }
}

/// A definition found in a prefix of a list is the one found in the list.
proof fn lookup_stable(s: Seq<ComponentDefinitionV>, n: int, name: Seq<char>)
    requires
        0 <= n <= s.len(),
        lookup(s.take(n), name) is Some,
    ensures
        lookup(s, name) == lookup(s.take(n), name),
    decreases s.len() - n,
{
    if n < s.len() {
        assert(s.take(n + 1).drop_last() =~= s.take(n));
        lookup_stable(s, n + 1, name);
    } else {
        assert(s.take(n) =~= s);
    }
}

proof fn registered_at(s: Seq<ComponentDefinitionV>, i: int, d: ComponentDefinitionV)
    requires
        0 <= i < s.len(),
        s[i].name == d.name,
        lookup(s.take(i), d.name) is None,
    ensures
        registered(s, d) == s.update(i, d),
    decreases s.len(),
{
    let front = s.drop_last();
    if i == s.len() - 1 {
        assert(front =~= s.take(i));
        assert(front.push(d) =~= s.update(i, d));
    } else {
        assert(front.take(i) =~= s.take(i));
        registered_at(front, i, d);
        assert(front.take(i + 1).drop_last() =~= front.take(i));
        lookup_stable(front, i + 1, d.name);
        assert(front.update(i, d).push(s.last()) =~= s.update(i, d));
    }
}

proof fn registered_new(s: Seq<ComponentDefinitionV>, d: ComponentDefinitionV)
    requires
        lookup(s, d.name) is None,
    ensures
        registered(s, d) == s.push(d),
{
    if s.len() == 0 {
        assert(s.push(d) =~= seq![d]);
    }
}

proof fn lookup_push(s: Seq<ComponentDefinitionV>, d: ComponentDefinitionV, name: Seq<char>)
    ensures
        lookup(s.push(d), name) == (match lookup(s, name) {
            Some(found) => Some(found),
            None => if d.name == name {
                Some(d)
            } else {
                None
            },
        }),
{
    assert(s.push(d).drop_last() =~= s);
}

/// A component is found as it was registered last, and registering one leaves
/// what is found under every other name as it was.
pub proof fn registered_is_found(
    s: Seq<ComponentDefinitionV>,
    d: ComponentDefinitionV,
    other: Seq<char>,
)
    requires
        other != d.name,
    ensures
        lookup(registered(s, d), d.name) == Some(d),
        lookup(registered(s, d), other) == lookup(s, other),
    decreases s.len(),
{
    let none = Seq::<ComponentDefinitionV>::empty();
    if s.len() == 0 {
        assert(seq![d] =~= none.push(d));
        lookup_push(none, d, d.name);
        lookup_push(none, d, other);
    } else {
        let front = s.drop_last();
        registered_is_found(front, d, other);
        assert(s =~= front.push(s.last()));
        lookup_push(front, s.last(), d.name);
        lookup_push(front, s.last(), other);
        lookup_push(registered(front, d), s.last(), d.name);
        lookup_push(registered(front, d), s.last(), other);
        lookup_push(front, d, d.name);
        lookup_push(front, d, other);
        lookup_push(s, d, d.name);
        lookup_push(s, d, other);
    }
}

/// Registering a definition that is there already changes nothing.
pub proof fn registering_again(s: Seq<ComponentDefinitionV>, d: ComponentDefinitionV)
    requires
        lookup(s, d.name) == Some(d),
    ensures
        registered(s, d) == s,
    decreases s.len(),
{
    let front = s.drop_last();
    if knows(front, d.name) {
        registering_again(front, d);
    }
    assert(front.push(s.last()) =~= s);
}

} // verus!
