//! Every component that is called must be known.

use vstd::prelude::*;
use vstd::string::*;

use crate::ast::{views, Decl, DeclKind, Expr, ExprKind, ImportItem, Program};
use crate::component::{knows, ComponentDefinitionV, ComponentRegistry};
use crate::component_calls::{component_name, get_component_name};
use crate::everywhere::{in_program, Law};
use crate::messages::Messages;
use crate::model::{DeclKindV, DeclV, ExprKindV, ExprV, ImportItemV, ProgramV};
use crate::notes::{inspect_program, program_notes, quiet, quiet_program, Inspection, Inspector};
use crate::text::{contains_name, names_view};

verus! {

/// The names that a list of imported items brings in.
pub open spec fn imported_names(s: Seq<ImportItemV>) -> Seq<Seq<char>>
    decreases s.len(),
{
    if s.len() == 0 {
        seq![]
    } else {
        let front = imported_names(s.drop_last());
        match s.last() {
            ImportItemV::Named { name, details: _ } => front.push(name),
            _ => front,
        }
    }
}

/// The names of the classes and of the imported items of a program.
pub open spec fn component_names(s: Seq<DeclV>) -> Seq<Seq<char>>
    decreases s.len(),
{
    if s.len() == 0 {
        seq![]
    } else {
        let front = component_names(s.drop_last());
        match s.last().kind {
            DeclKindV::Class(c) => front.push(c.name),
            DeclKindV::Import(i) => front + imported_names(i.items),
            _ => front,
        }
    }
}

/// Whether a component may be called: it is declared, imported or registered.
pub open spec fn is_known(
    names: Seq<Seq<char>>,
    defs: Seq<ComponentDefinitionV>,
    name: Seq<char>,
) -> bool {
    names.contains(name) || knows(defs, name)
}

pub open spec fn unknown_component(name: Seq<char>) -> Seq<char> {
    "unknown component `"@ + name + "` — declare it with `component "@ + name
        + " { ... }` before use"@
}

/// The component that an expression calls.
pub open spec fn called_component(e: ExprV) -> Option<Seq<char>> {
    match e.kind {
        ExprKindV::Call(c) => component_name(c),
        _ => None,
    }
}

/// The inspection that notes every call of an unknown component.
pub open spec fn component_inspection(
    names: Seq<Seq<char>>,
    defs: Seq<ComponentDefinitionV>,
) -> Inspection {
    Inspection {
        note: |e: ExprV|
            match called_component(e) {
                Some(name) => if is_known(names, defs, name) {
                    seq![]
                } else {
                    seq![unknown_component(name)]
                },
                None => seq![],
            },
    }
}

/// The messages about a program, in the order of the calls.
pub open spec fn validation_errors(p: ProgramV, defs: Seq<ComponentDefinitionV>) -> Seq<
    Seq<char>,
> {
    program_notes(component_inspection(component_names(p.declarations), defs), p)
}

fn collect_imported(items: &Vec<ImportItem>, out: &mut Vec<String>)
    ensures
        names_view(final(out)@) == names_view(old(out)@) + imported_names(views(items@)),
{
    let ghost all = views(items@);
    let ghost out0 = names_view(out@);
    assert(out0 + imported_names(all.take(0)) =~= out0);
    for i in 0..items.len()
        invariant
            all == views(items@),
            names_view(out@) == out0 + imported_names(all.take(i as int)),
    {
        proof {
            assert(all.take(i + 1).drop_last() =~= all.take(i as int));
        }
        match &items[i] {
            ImportItem::Named { name, details: _ } => {
                let owned = name.clone();
                let ghost before = out@;
                out.push(owned);
                proof {
                    assert(names_view(out@) =~= names_view(before).push(name@));
                    assert(imported_names(all.take(i + 1)) == imported_names(
                        all.take(i as int),
                    ).push(name@));
                    assert(names_view(out@) =~= out0 + imported_names(all.take(i + 1)));
                }
            },
            _ => {},
        }
    }
    assert(all.take(all.len() as int) =~= all);
}

fn collect_component_names(decls: &Vec<Decl>) -> (r: Vec<String>)
    ensures
        names_view(r@) == component_names(views(decls@)),
{
    let ghost all = views(decls@);
    let mut r: Vec<String> = Vec::new();
    assert(names_view(r@) =~= component_names(all.take(0)));
    for i in 0..decls.len()
        invariant
            all == views(decls@),
            names_view(r@) == component_names(all.take(i as int)),
    {
        proof {
            assert(all.take(i + 1).drop_last() =~= all.take(i as int));
        }
        match &decls[i].kind {
            DeclKind::Class(c) => {
                let owned = c.name.clone();
                assert(names_view(r@.push(owned)) =~= names_view(r@).push(owned@));
                r.push(owned);
            },
            DeclKind::Import(import) => {
                collect_imported(&import.items, &mut r);
            },
            _ => {},
        }
    }
    assert(all.take(all.len() as int) =~= all);
    r
}

struct ComponentInspection<'a> {
    names: &'a Vec<String>,
    registry: &'a ComponentRegistry,
}

impl<'a> Inspector for ComponentInspection<'a> {
    closed spec fn inspection(&self) -> Inspection {
        component_inspection(names_view(self.names@), self.registry@)
    }

    fn note_into(&self, e: &Expr, out: &mut Messages) {
        let ghost out0 = out@;
        match &e.kind {
            ExprKind::Call(c) => match get_component_name(c) {
                Some(name) => {
                    if !contains_name(self.names, &name) && self.registry.get_by_name(
                        &name,
                    ).is_none() {
                        let mut text: String = "unknown component `".to_owned();
                        text.append(name.as_str());
                        text.append("` — declare it with `component ");
                        text.append(name.as_str());
                        text.append(" { ... }` before use");
                        out.push(text);
                    }
                },
                None => {},
            },
            _ => {},
        }
        assert(out@ =~= out0 + (self.inspection().note)(e@));
    }
}

/// See that every component that a program calls is declared, imported or
/// registered. Fails with one message for every call that is not.
pub fn validate_component_calls(program: &Program, registry: &ComponentRegistry) -> (r: Result<
    (),
    Vec<String>,
>)
    ensures
        match r {
            Ok(()) => validation_errors(program@, registry@).len() == 0,
            Err(messages) => messages@.len() > 0 && names_view(messages@) == validation_errors(
                program@,
                registry@,
            ),
        },
{
    let names = collect_component_names(&program.declarations);
    let inspector = ComponentInspection { names: &names, registry };
    let errors = inspect_program(&inspector, program);
    if errors.items.len() == 0 {
        assert(errors@.len() == 0);
        Ok(())
    } else {
        Err(errors.items)
    }
}

/// The law that every called component is known.
pub open spec fn known_law(names: Seq<Seq<char>>, defs: Seq<ComponentDefinitionV>) -> Law {
    quiet(component_inspection(names, defs))
}

/// Validation succeeds exactly when every call of a component, wherever in the
/// body of a function or method it stands, is one of a known component.
pub proof fn valid_means_all_known(p: ProgramV, defs: Seq<ComponentDefinitionV>)
    ensures
        validation_errors(p, defs).len() == 0 <==> in_program(
            known_law(component_names(p.declarations), defs),
            p,
        ),
        forall|e: ExprV|
            #![trigger called_component(e)]
            (known_law(component_names(p.declarations), defs).p)(e) <==> (match called_component(
                e,
            ) {
                Some(name) => is_known(component_names(p.declarations), defs, name),
                None => true,
            }),
{
    quiet_program(component_inspection(component_names(p.declarations), defs), p);
}

} // verus!
