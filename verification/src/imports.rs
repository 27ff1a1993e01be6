//! Imports: where they point, and the views that they make callable.

use vstd::prelude::*;

use crate::ast::{
    no_span, views, Decl, DeclKind, Function, Import, ImportItem, Param, PrimitiveType, Program,
    Span, Type, Visibility,
};
use crate::model::{DeclKindV, DeclV, FunctionV, ImportItemV, ParamV, ProgramV};
use crate::shape::prim;
use crate::text::{concat, contains_name, from_chars, names_view, to_chars};

verus! {

// ---------------------------------------------------------------------------
// Paths
// ---------------------------------------------------------------------------

/// A text without leading slashes.
pub open spec fn trim_slashes(s: Seq<char>) -> Seq<char>
    decreases s.len(),
{
    if s.len() > 0 && s[0] == '/' {
        trim_slashes(s.skip(1))
    } else {
        s
    }
}

/// The segments of an import path: those that are not empty, without leading
/// slashes.
pub open spec fn segments_of(s: Seq<Seq<char>>) -> Seq<Seq<char>>
    decreases s.len(),
{
    if s.len() == 0 {
        seq![]
    } else {
        let front = segments_of(s.drop_last());
        if s.last().len() == 0 {
            front
        } else {
            front.push(trim_slashes(s.last()))
        }
    }
}

/// The segments of every import of some declarations, in order.
pub open spec fn import_paths(s: Seq<DeclV>) -> Seq<Seq<Seq<char>>>
    decreases s.len(),
{
    if s.len() == 0 {
        seq![]
    } else {
        let front = import_paths(s.drop_last());
        match s.last().kind {
            DeclKindV::Import(i) => front.push(segments_of(i.path_segments)),
            _ => front,
        }
    }
}

fn strip_slashes(s: &String) -> (r: String)
    ensures
        r@ == trim_slashes(s@),
{
    let v = to_chars(s.as_str());
    let total: usize = v.len();
    let mut i: usize = 0;
    assert(v@.skip(0) =~= v@);
    while i < total && v[i] == '/'
        invariant
            i <= total,
            total == v@.len(),
            trim_slashes(v@) == trim_slashes(v@.skip(i as int)),
        decreases total - i,
    {
        proof {
            assert(v@.skip(i as int).skip(1) =~= v@.skip(i + 1));
            assert(v@.skip(i as int)[0] == v@[i as int]);
        }
        i = i + 1;
    }
    proof {
        if i < total {
            assert(v@.skip(i as int)[0] == v@[i as int]);
        }
        assert(v@.skip(i as int) =~= v@.subrange(i as int, total as int));
    }
    from_chars(&v, i, total)
}

/// The segments of an import path that say where to look.
pub fn import_segments(import: &Import) -> (r: Vec<String>)
    ensures
        names_view(r@) == segments_of(import@.path_segments),
{
    let ghost all = import@.path_segments;
    let mut r: Vec<String> = Vec::new();
    assert(names_view(r@) =~= segments_of(all.take(0)));
    for i in 0..import.path_segments.len()
        invariant
            all == import@.path_segments,
            names_view(r@) == segments_of(all.take(i as int)),
    {
        let s = &import.path_segments[i];
        proof {
            assert(all.take(i + 1).drop_last() =~= all.take(i as int));
            assert(all[i as int] == s@);
        }
        if s.as_str().unicode_len() > 0 {
            let segment = strip_slashes(s);
            assert(names_view(r@.push(segment)) =~= names_view(r@).push(segment@));
            r.push(segment);
        }
    }
    assert(all.take(all.len() as int) =~= all);
    r
}

/// The segments of every import of a program, in order.
pub fn collect_imports(program: &Program) -> (r: Vec<Vec<String>>)
    ensures
        r@.len() == import_paths(program@.declarations).len(),
        forall|i: int|
            0 <= i < r@.len() ==> names_view((#[trigger] r@[i])@) == import_paths(
                program@.declarations,
            )[i],
{
    let ghost all = program@.declarations;
    let mut r: Vec<Vec<String>> = Vec::new();
    for i in 0..program.declarations.len()
        invariant
            all == program@.declarations,
            r@.len() == import_paths(all.take(i as int)).len(),
            forall|k: int|
                0 <= k < r@.len() ==> names_view((#[trigger] r@[k])@) == import_paths(
                    all.take(i as int),
                )[k],
    {
        proof {
            assert(all.take(i + 1).drop_last() =~= all.take(i as int));
            assert(all[i as int] == program.declarations@[i as int]@);
        }
        match &program.declarations[i].kind {
            DeclKind::Import(import) => {
                r.push(import_segments(import));
            },
            _ => {},
        }
    }
    assert(all.take(all.len() as int) =~= all);
    r
}

// ---------------------------------------------------------------------------
// Imported views
// ---------------------------------------------------------------------------

/// The view symbols that the named items of an import ask for, as far as the
/// module has compiled them, added to `wanted`.
pub open spec fn items_wanted(
    items: Seq<ImportItemV>,
    compiled: Seq<Seq<char>>,
    wanted: Seq<Seq<char>>,
) -> Seq<Seq<char>>
    decreases items.len(),
{
    if items.len() == 0 {
        wanted
    } else {
        let front = items_wanted(items.drop_last(), compiled, wanted);
        match items.last() {
            ImportItemV::Named { name, details: _ } => {
                let symbol = name + "$view"@;
                if compiled.contains(symbol) && !front.contains(symbol) {
                    front.push(symbol)
                } else {
                    front
                }
            },
            _ => front,
        }
    }
}

/// The view symbols that the imports of some declarations ask for. `compiled`
/// holds, for every import in order, the symbols of the module that it points
/// to, where that is known.
pub open spec fn views_wanted(
    s: Seq<DeclV>,
    compiled: Seq<Option<Seq<Seq<char>>>>,
) -> Seq<Seq<char>>
    decreases s.len(),
{
    if s.len() == 0 {
        seq![]
    } else {
        let before = s.drop_last();
        let front = views_wanted(before, compiled);
        match s.last().kind {
            DeclKindV::Import(i) => {
                let k = import_paths(before).len() as int;
                if segments_of(i.path_segments).len() > 0 && k < compiled.len() {
                    match compiled[k] {
                        Some(names) => items_wanted(i.items, names, front),
                        None => front,
                    }
                } else {
                    front
                }
            },
            _ => front,
        }
    }
}

/// The declaration of a view that is compiled elsewhere: it takes nothing and
/// returns a widget handle.
pub open spec fn imported_view(symbol: Seq<char>) -> DeclV {
    DeclV {
        kind: DeclKindV::Function(
            FunctionV {
                name: symbol,
                params: seq![],
                return_type: prim(PrimitiveType::I64),
                body: None,
                visibility: Visibility::Public,
                is_external: true,
                link_name: Some(symbol),
                details: 0,
            },
        ),
        ty: prim(PrimitiveType::Unit),
        span: no_span(),
    }
}

/// Whether some declarations declare a function called `name`.
pub open spec fn declares_function(s: Seq<DeclV>, name: Seq<char>) -> bool {
    exists|i: int|
        0 <= i < s.len() && ((#[trigger] s[i]).kind matches DeclKindV::Function(f) && f.name
            == name)
}

/// The declarations with those of the wanted views added that are missing.
pub open spec fn with_views(s: Seq<DeclV>, wanted: Seq<Seq<char>>) -> Seq<DeclV>
    decreases wanted.len(),
{
    if wanted.len() == 0 {
        s
    } else {
        let front = with_views(s, wanted.drop_last());
        if declares_function(front, wanted.last()) {
            front
        } else {
            front.push(imported_view(wanted.last()))
        }
    }
}

/// A program in which the views that it imports are declared.
pub open spec fn imports_injected(p: ProgramV, compiled: Seq<Option<Seq<Seq<char>>>>) -> ProgramV {
    ProgramV {
        declarations: with_views(p.declarations, views_wanted(p.declarations, compiled)),
        ..p
    }
}

/// The names behind a list of optional lists.
pub open spec fn compiled_view(v: Seq<Option<Vec<String>>>) -> Seq<Option<Seq<Seq<char>>>> {
    Seq::new(
        v.len(),
        |i: int|
            match v[i] {
                Some(names) => Some(names_view(names@)),
                None => None,
            },
    )
}

fn collect_wanted_items(items: &Vec<ImportItem>, compiled: &Vec<String>, wanted: &mut Vec<String>)
    ensures
        names_view(final(wanted)@) == items_wanted(
            views(items@),
            names_view(compiled@),
            names_view(old(wanted)@),
        ),
{
    let ghost all = views(items@);
    let ghost wanted0 = names_view(wanted@);
    let ghost known = names_view(compiled@);
    assert(all.take(0) =~= Seq::<ImportItemV>::empty());
    for i in 0..items.len()
        invariant
            all == views(items@),
            known == names_view(compiled@),
            names_view(wanted@) == items_wanted(all.take(i as int), known, wanted0),
    {
        proof {
            assert(all.take(i + 1).drop_last() =~= all.take(i as int));
            assert(all[i as int] == items@[i as int]@);
        }
        match &items[i] {
            ImportItem::Named { name, details: _ } => {
                let symbol = concat(name.as_str(), "$view");
                if contains_name(compiled, &symbol) && !contains_name(wanted, &symbol) {
                    assert(names_view(wanted@.push(symbol)) =~= names_view(wanted@).push(symbol@));
                    wanted.push(symbol);
                }
            },
            _ => {},
        }
    }
    assert(all.take(all.len() as int) =~= all);
}

fn collect_wanted(decls: &Vec<Decl>, compiled: &Vec<Option<Vec<String>>>) -> (wanted: Vec<String>)
    ensures
        names_view(wanted@) == views_wanted(views(decls@), compiled_view(compiled@)),
{
    let ghost all = views(decls@);
    let ghost known = compiled_view(compiled@);
    let mut wanted: Vec<String> = Vec::new();
    let mut k: usize = 0;
    assert(names_view(wanted@) =~= views_wanted(all.take(0), known));
    for i in 0..decls.len()
        invariant
            all == views(decls@),
            known == compiled_view(compiled@),
            k == import_paths(all.take(i as int)).len(),
            k <= i,
            names_view(wanted@) == views_wanted(all.take(i as int), known),
    {
        proof {
            assert(all.take(i + 1).drop_last() =~= all.take(i as int));
            assert(all[i as int] == decls@[i as int]@);
        }
        match &decls[i].kind {
            DeclKind::Import(import) => {
                let segments = import_segments(import);
                if segments.len() > 0 && k < compiled.len() {
                    assert(names_view(segments@).len() > 0);
                    match &compiled[k] {
                        Some(names) => {
                            collect_wanted_items(&import.items, names, &mut wanted);
                        },
                        None => {},
                    }
                } else {
                    assert(names_view(segments@).len() == segments@.len());
                }
                k = k + 1;
            },
            _ => {},
        }
    }
    assert(all.take(all.len() as int) =~= all);
    wanted
}

fn holds_function(decls: &Vec<Decl>, name: &String) -> (r: bool)
    ensures
        r == declares_function(views(decls@), name@),
{
    let ghost all = views(decls@);
    let mut i: usize = 0;
    while i < decls.len()
        invariant
            i <= decls@.len(),
            all == views(decls@),
            forall|k: int|
                0 <= k < i ==> !((#[trigger] all[k]).kind matches DeclKindV::Function(f) && f.name
                    == name@),
        decreases decls@.len() - i,
    {
        assert(all[i as int] == decls@[i as int]@);
        match &decls[i].kind {
            DeclKind::Function(f) => {
                if f.name == *name {
                    return true;
                }
            },
            _ => {},
        }
        i = i + 1;
    }
    false
}

fn new_imported_view(symbol: &String) -> (d: Decl)
    ensures
        d@ == imported_view(symbol@),
{
    let params: Vec<Param> = Vec::new();
    assert(views(params@) =~= Seq::<ParamV>::empty());
    let f = Function {
        name: symbol.clone(),
        params,
        return_type: Type::Primitive(PrimitiveType::I64),
        body: None,
        visibility: Visibility::Public,
        is_external: true,
        link_name: Some(symbol.clone()),
        details: 0,
    };
    Decl {
        kind: DeclKind::Function(f),
        ty: Type::Primitive(PrimitiveType::Unit),
        span: Span::default(),
    }
}

/// Declare the views that a program imports. `compiled` holds, for every import
/// in order, the symbols of the module that it points to, where that module is
/// compiled. Imported views take no parameters.
pub fn inject_imported_view_externs(program: &mut Program, compiled: &Vec<Option<Vec<String>>>)
    ensures
        final(program)@ == imports_injected(old(program)@, compiled_view(compiled@)),
{
    let ghost p0 = program@;
    let wanted = collect_wanted(&program.declarations, compiled);
    let ghost all = names_view(wanted@);
    assert(all.take(0) =~= Seq::<Seq<char>>::empty());
    for i in 0..wanted.len()
        invariant
            all == names_view(wanted@),
            program@.type_registry == p0.type_registry,
            program@.declarations == with_views(p0.declarations, all.take(i as int)),
    {
        proof {
            assert(all.take(i + 1).drop_last() =~= all.take(i as int));
        }
        let symbol = &wanted[i];
        if !holds_function(&program.declarations, symbol) {
            let ghost before = program@.declarations;
            let d = new_imported_view(symbol);
            program.declarations.push(d);
            assert(program@.declarations =~= before.push(d@));
        }
    }
    assert(all.take(all.len() as int) =~= all);
}

/// Every view that is wanted is declared in the end.
pub proof fn wanted_views_are_declared(s: Seq<DeclV>, wanted: Seq<Seq<char>>, k: int)
    requires
        0 <= k < wanted.len(),
    ensures
        declares_function(with_views(s, wanted), wanted[k]),
    decreases wanted.len(),
{
    let front = with_views(s, wanted.drop_last());
    let now = with_views(s, wanted);
    if k < wanted.len() - 1 {
        wanted_views_are_declared(s, wanted.drop_last(), k);
        let i = choose|i: int|
            0 <= i < front.len() && ((#[trigger] front[i]).kind matches DeclKindV::Function(f)
                && f.name == wanted[k]);
        assert(now[i] == front[i]);
    } else if !declares_function(front, wanted.last()) {
        assert(now[front.len() as int] == imported_view(wanted.last()));
    }
}

} // verus!
