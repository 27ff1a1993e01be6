//! What the declarations of a program stand for.

use vstd::prelude::*;

use crate::ast::{views, Decl, DeclKind, Function, ImplBlock, Method, Program, Type};
use crate::model::{DeclKindV, DeclV, FunctionV, MethodV, TypeV};
use crate::text::{names_view, same};

verus! {

/// Whether a function declares a signal: it is implemented elsewhere but not
/// linked to a host symbol, takes nothing and returns a scalar.
pub open spec fn declares_signal(f: FunctionV) -> bool {
    f.is_external && f.body is None && f.params.len() == 0 && f.link_name is None
        && f.return_type is Primitive
}

pub fn is_signal_decl(f: &Function) -> (r: bool)
    ensures
        r == declares_signal(f@),
{
    f.is_external && f.body.is_none() && f.params.len() == 0 && f.link_name.is_none() && matches!(
        f.return_type,
        Type::Primitive(_)
    )
}

/// The signal that a declaration declares.
pub open spec fn signal_of(d: DeclV) -> Option<(Seq<char>, TypeV)> {
    match d.kind {
        DeclKindV::Function(f) => if declares_signal(f) {
            Some((f.name, f.return_type))
        } else {
            None
        },
        _ => None,
    }
}

/// The declared signals with their types, in order.
pub open spec fn declared_signals(s: Seq<DeclV>) -> Seq<(Seq<char>, TypeV)>
    decreases s.len(),
{
    if s.len() == 0 {
        seq![]
    } else {
        let front = declared_signals(s.drop_last());
        match signal_of(s.last()) {
            Some(signal) => front.push(signal),
            None => front,
        }
    }
}

/// Whether a method list holds a method called `name`.
pub open spec fn has_method(s: Seq<MethodV>, name: Seq<char>) -> bool {
    exists|i: int| 0 <= i < s.len() && (#[trigger] s[i]).name == name
}

pub fn impl_has_method(i: &ImplBlock, name: &str) -> (r: bool)
    ensures
        r == has_method(i@.methods, name@),
{
    let mut k: usize = 0;
    while k < i.methods.len()
        invariant
            k <= i.methods@.len(),
            forall|j: int| 0 <= j < k ==> (#[trigger] i@.methods[j]).name != name@,
        decreases i.methods@.len() - k,
    {
        if same(&i.methods[k].name, name) {
            assert(i@.methods[k as int].name == name@);
            return true;
        }
        k = k + 1;
    }
    false
}

/// The state machine that a declaration describes: an impl block with the
/// method `__fsm_meta__` describes one under the name of its trait.
pub open spec fn fsm_of(d: DeclV) -> Option<Seq<char>> {
    match d.kind {
        DeclKindV::Impl(i) => if has_method(i.methods, "__fsm_meta__"@) {
            Some(i.trait_name)
        } else {
            None
        },
        _ => None,
    }
}

/// The names of the declared state machines, in order.
pub open spec fn declared_fsms(s: Seq<DeclV>) -> Seq<Seq<char>>
    decreases s.len(),
{
    if s.len() == 0 {
        seq![]
    } else {
        let front = declared_fsms(s.drop_last());
        match fsm_of(s.last()) {
            Some(name) => front.push(name),
            None => front,
        }
    }
}

pub fn collect_signals(decls: &Vec<Decl>) -> (r: Vec<(String, Type)>)
    ensures
        views(r@) == declared_signals(views(decls@)),
{
    let ghost all = views(decls@);
    let mut r: Vec<(String, Type)> = Vec::new();
    assert(views(r@) =~= declared_signals(all.take(0)));
    for i in 0..decls.len()
        invariant
            all == views(decls@),
            views(r@) == declared_signals(all.take(i as int)),
    {
        proof {
            assert(all.take(i + 1).drop_last() =~= all.take(i as int));
        }
        match &decls[i].kind {
            DeclKind::Function(f) => {
                if is_signal_decl(f) {
                    let signal = (f.name.clone(), f.return_type.copied());
                    assert(views(r@.push(signal)) =~= views(r@).push(signal@));
                    r.push(signal);
                }
            },
            _ => {},
        }
    }
    assert(all.take(all.len() as int) =~= all);
    r
}

pub fn collect_fsms(decls: &Vec<Decl>) -> (r: Vec<String>)
    ensures
        names_view(r@) == declared_fsms(views(decls@)),
{
    let ghost all = views(decls@);
    let mut r: Vec<String> = Vec::new();
    assert(names_view(r@) =~= declared_fsms(all.take(0)));
    for i in 0..decls.len()
        invariant
            all == views(decls@),
            names_view(r@) == declared_fsms(all.take(i as int)),
    {
        proof {
            assert(all.take(i + 1).drop_last() =~= all.take(i as int));
        }
        match &decls[i].kind {
            DeclKind::Impl(imp) => {
                if impl_has_method(imp, "__fsm_meta__") {
                    let name = imp.trait_name.clone();
                    assert(names_view(r@.push(name)) =~= names_view(r@).push(name@));
                    r.push(name);
                }
            },
            _ => {},
        }
    }
    assert(all.take(all.len() as int) =~= all);
    r
}

/// The signals and the state machines that a program declares.
pub fn collect_declared(program: &Program) -> (r: (Vec<(String, Type)>, Vec<String>))
    ensures
        views(r.0@) == declared_signals(program@.declarations),
        names_view(r.1@) == declared_fsms(program@.declarations),
{
    (collect_signals(&program.declarations), collect_fsms(&program.declarations))
}

// ---------------------------------------------------------------------------
// Passes that treat every declaration on its own
// ---------------------------------------------------------------------------

/// What a pass makes of a declaration.
pub trait DeclPass: Sized {
    spec fn result(&self, d: DeclV) -> DeclV;

    fn apply(&self, d: Decl) -> (out: Decl)
        ensures
            out@ == self.result(d@),
    ;
}

pub fn map_decls<P: DeclPass>(pass: &P, decls: Vec<Decl>) -> (out: Vec<Decl>)
    ensures
        out@.len() == decls@.len(),
        forall|k: int| 0 <= k < out@.len() ==> (#[trigger] views(out@)[k]) == pass.result(
            views(decls@)[k],
        ),
{
    let ghost decls0 = decls@;
    let mut out: Vec<Decl> = Vec::new();
    for d in it: decls
        invariant
            it.seq() == decls0,
            out@.len() == it.index(),
            forall|k: int|
                0 <= k < out@.len() ==> (#[trigger] out@[k])@ == pass.result(decls0[k]@),
    {
        assert(d == decls0[it.index() as int]);
        out.push(pass.apply(d));
    }
    out
}

/// The first method called `name`.
pub open spec fn find_method(s: Seq<MethodV>, name: Seq<char>) -> Option<MethodV>
    decreases s.len(),
{
    if s.len() == 0 {
        None
    } else {
        match find_method(s.drop_last(), name) {
            Some(m) => Some(m),
            None => if s.last().name == name {
                Some(s.last())
            } else {
                None
            },
        }
    }
}

proof fn find_method_stable(s: Seq<MethodV>, n: int, name: Seq<char>)
    requires
        0 <= n <= s.len(),
        find_method(s.take(n), name) is Some,
    ensures
        find_method(s, name) == find_method(s.take(n), name),
    decreases s.len() - n,
{
    if n < s.len() {
        assert(s.take(n + 1).drop_last() =~= s.take(n));
        find_method_stable(s, n + 1, name);
    } else {
        assert(s.take(n) =~= s);
    }
}

pub fn get_method<'a>(methods: &'a Vec<Method>, name: &str) -> (r: Option<&'a Method>)
    ensures
        match r {
            Some(m) => find_method(views(methods@), name@) == Some(m@),
            None => find_method(views(methods@), name@) is None,
        },
{
    let ghost all = views(methods@);
    let mut i: usize = 0;
    assert(all.take(0) =~= Seq::<MethodV>::empty());
    while i < methods.len()
        invariant
            i <= methods@.len(),
            all == views(methods@),
            find_method(all.take(i as int), name@) is None,
        decreases methods@.len() - i,
    {
        proof {
            assert(all.take(i + 1).drop_last() =~= all.take(i as int));
        }
        if same(&methods[i].name, name) {
            proof {
                find_method_stable(all, i + 1, name@);
            }
            return Some(&methods[i]);
        }
        i = i + 1;
    }
    assert(all.take(all.len() as int) =~= all);
    None
}

/// A method is found exactly when the list holds one of its name.
pub proof fn find_method_has(s: Seq<MethodV>, name: Seq<char>)
    ensures
        find_method(s, name) is Some <==> has_method(s, name),
        find_method(s, name) is Some ==> find_method(s, name)->0.name == name,
    decreases s.len(),
{
    if s.len() > 0 {
        let front = s.drop_last();
        find_method_has(front, name);
        if has_method(front, name) {
            let k = choose|k: int| 0 <= k < front.len() && (#[trigger] front[k]).name == name;
            assert(s[k].name == name);
        }
        if has_method(s, name) {
            let k = choose|k: int| 0 <= k < s.len() && (#[trigger] s[k]).name == name;
            if k < front.len() {
                assert(front[k].name == name);
            }
        }
    }
}

} // verus!
