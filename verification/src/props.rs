//! Component properties as parameters of the component's methods.

use vstd::prelude::*;

use crate::ast::{copy_params, views, Decl, DeclKind, ImplBlock, Method, Param, Program};
use crate::decls::{find_method, find_method_has, get_method, has_method, map_decls, DeclPass};
use crate::model::{DeclKindV, DeclV, ImplBlockV, MethodV, ParamV, ProgramV};
use crate::text::same;

verus! {

/// The methods without the property marker, each with `props` before its own
/// parameters.
pub open spec fn methods_bound(s: Seq<MethodV>, props: Seq<ParamV>) -> Seq<MethodV>
    decreases s.len(),
{
    if s.len() == 0 {
        seq![]
    } else {
        let front = methods_bound(s.drop_last(), props);
        let m = s.last();
        if m.name == "__component_props__"@ {
            front
        } else {
            front.push(MethodV { params: props + m.params, ..m })
        }
    }
}

/// A declaration with its properties bound: the parameters of the first
/// `__component_props__` marker of an impl block go to its other methods.
pub open spec fn decl_bound(d: DeclV) -> DeclV {
    match d.kind {
        DeclKindV::Impl(i) => match find_method(i.methods, "__component_props__"@) {
            Some(marker) => DeclV {
                kind: DeclKindV::Impl(
                    ImplBlockV { methods: methods_bound(i.methods, marker.params), ..i },
                ),
                ..d
            },
            None => d,
        },
        _ => d,
    }
}

/// A program with the properties of its components bound.
pub open spec fn props_bound(p: ProgramV) -> ProgramV {
    ProgramV {
        declarations: Seq::new(p.declarations.len(), |i: int| decl_bound(p.declarations[i])),
        ..p
    }
}

fn bind_methods(methods: Vec<Method>, props: &Vec<Param>) -> (out: Vec<Method>)
    ensures
        views(out@) == methods_bound(views(methods@), views(props@)),
{
    let ghost all = views(methods@);
    let ghost methods0 = methods@;
    let ghost given = views(props@);
    let mut out: Vec<Method> = Vec::new();
    assert(views(out@) =~= Seq::<MethodV>::empty());
    for m in it: methods
        invariant
            it.seq() == methods0,
            all == views(methods0),
            given == views(props@),
            views(out@) == methods_bound(all.take(it.index() as int), given),
    {
        proof {
            let i = it.index() as int;
            assert(all.take(i + 1).drop_last() =~= all.take(i));
            assert(m@ == all[i]);
        }
        if !same(&m.name, "__component_props__") {
            let ghost m0 = m@;
            let Method { name, params, return_type, body, details } = m;
            let mut all_params = copy_params(props);
            let mut own = params;
            let ghost first = all_params@;
            all_params.append(&mut own);
            assert(views(all_params@) =~= given + m0.params);
            let y = Method { name, params: all_params, return_type, body, details };
            assert(y@ == MethodV { params: given + m0.params, ..m0 });
            assert(views(out@.push(y)) =~= views(out@).push(y@));
            out.push(y);
        }
    }
    assert(all.take(all.len() as int) =~= all);
    out
}

struct BindProps {}

impl DeclPass for BindProps {
    closed spec fn result(&self, d: DeclV) -> DeclV {
        decl_bound(d)
    }

    fn apply(&self, d: Decl) -> (out: Decl) {
        let Decl { kind, ty, span } = d;
        match kind {
            DeclKind::Impl(i) => {
                let props: Option<Vec<Param>> = match get_method(
                    &i.methods,
                    "__component_props__",
                ) {
                    Some(marker) => Some(copy_params(&marker.params)),
                    None => None,
                };
                match props {
                    Some(params) => {
                        let ImplBlock { trait_name, for_type, methods, details } = i;
                        let methods1 = bind_methods(methods, &params);
                        Decl {
                            kind: DeclKind::Impl(
                                ImplBlock { trait_name, for_type, methods: methods1, details },
                            ),
                            ty,
                            span,
                        }
                    },
                    None => Decl { kind: DeclKind::Impl(i), ty, span },
                }
            },
            other => Decl { kind: other, ty, span },
        }
    }
}

/// Write the properties of each component onto the parameters of its methods,
/// properties first, and drop the markers that carried them.
pub fn bind_component_props(program: &mut Program)
    ensures
        final(program)@ == props_bound(old(program)@),
{
    let mut declarations: Vec<Decl> = Vec::new();
    std::mem::swap(&mut program.declarations, &mut declarations);
    program.declarations = map_decls(&BindProps {  }, declarations);
    assert(program@.declarations =~= props_bound(old(program)@).declarations);
}

proof fn no_marker_left(s: Seq<MethodV>, props: Seq<ParamV>)
    ensures
        !has_method(methods_bound(s, props), "__component_props__"@),
    decreases s.len(),
{
    if s.len() > 0 {
        no_marker_left(s.drop_last(), props);
        let front = methods_bound(s.drop_last(), props);
        let out = methods_bound(s, props);
        if has_method(out, "__component_props__"@) {
            let k = choose|k: int|
                0 <= k < out.len() && (#[trigger] out[k]).name == "__component_props__"@;
            if k < front.len() {
                assert(front[k] == out[k]);
            }
        }
    }
}

/// Whether a declaration holds a property marker.
pub open spec fn has_props_marker(d: DeclV) -> bool {
    match d.kind {
        DeclKindV::Impl(i) => has_method(i.methods, "__component_props__"@),
        _ => false,
    }
}

/// After the pass no property marker is left, and a second run of the pass
/// changes nothing.
pub proof fn binding_props_twice(p: ProgramV)
    ensures
        forall|k: int|
            0 <= k < p.declarations.len() ==> !has_props_marker(
                #[trigger] props_bound(p).declarations[k],
            ),
        props_bound(props_bound(p)) == props_bound(p),
{
    let once = props_bound(p);
    let twice = props_bound(once);
    assert forall|k: int| 0 <= k < p.declarations.len() implies !has_props_marker(
        #[trigger] once.declarations[k],
    ) && twice.declarations[k] == once.declarations[k] by {
        let d = p.declarations[k];
        match d.kind {
            DeclKindV::Impl(i) => {
                find_method_has(i.methods, "__component_props__"@);
                match find_method(i.methods, "__component_props__"@) {
                    Some(marker) => {
                        no_marker_left(i.methods, marker.params);
                        find_method_has(
                            methods_bound(i.methods, marker.params),
                            "__component_props__"@,
                        );
                    },
                    None => {},
                }
            },
            _ => {},
        }
    }
    assert(twice.declarations =~= once.declarations);
}

} // verus!
