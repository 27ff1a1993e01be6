//! Constructor calls of structs as struct literals.

use vstd::prelude::*;
use vstd::string::*;

use crate::ast::{
    exprs_view, field_inits_view, opt_view, views, Call, Class, Decl, DeclKind, Expr, ExprKind,
    Field, FieldInit, Function, Program, Stmt, StmtKind, Type,
};
use crate::component_calls::{component_name, get_component_name};
use crate::everywhere::{
    establish_program, in_call, in_expr, in_expr_kind, in_exprs, in_field_inits, in_program, Law,
};
use crate::messages::Messages;
use crate::model::{
    DeclKindV, DeclV, ExprKindV, ExprV, FieldInitV, FieldV, ProgramV, StmtKindV, StmtV, TypeV,
};
use crate::shape::{callee_name, calls, get_string_arg, get_string_value, string_arg, string_value};
use crate::text::{contains_name, names_view, opt_name, same};
use crate::walk::{rewrite_decls, walk_program, Rewriter, Rule};

verus! {

// ---------------------------------------------------------------------------
// Declared structs
// ---------------------------------------------------------------------------

/// The struct that a `__blinc_struct_type__` marker function names: the text
/// of the string literal that its body starts with.
pub open spec fn marked_struct(d: DeclV) -> Option<Seq<char>> {
    match d.kind {
        DeclKindV::Function(f) => if f.name == "__blinc_struct_type__"@ {
            match f.body {
                Some(b) => if b.statements.len() > 0 {
                    match b.statements[0].kind {
                        StmtKindV::Expression(e) => string_value(e),
                        _ => None,
                    }
                } else {
                    None
                },
                None => None,
            }
        } else {
            None
        },
        _ => None,
    }
}

/// The names of the structs that a program marks, in order.
pub open spec fn marked_structs(s: Seq<DeclV>) -> Seq<Seq<char>>
    decreases s.len(),
{
    if s.len() == 0 {
        seq![]
    } else {
        let front = marked_structs(s.drop_last());
        match marked_struct(s.last()) {
            Some(name) => front.push(name),
            None => front,
        }
    }
}

/// A struct: its name and the names of its fields.
pub struct StructInfoV {
    pub name: Seq<char>,
    pub fields: Seq<Seq<char>>,
}

pub open spec fn field_names(s: Seq<FieldV>) -> Seq<Seq<char>> {
    Seq::new(s.len(), |i: int| s[i].name)
}

/// The classes whose names are marked as structs, in order.
pub open spec fn declared_structs(s: Seq<DeclV>, marked: Seq<Seq<char>>) -> Seq<StructInfoV>
    decreases s.len(),
{
    if s.len() == 0 {
        seq![]
    } else {
        let front = declared_structs(s.drop_last(), marked);
        match s.last().kind {
            DeclKindV::Class(c) => if marked.contains(c.name) {
                front.push(StructInfoV { name: c.name, fields: field_names(c.fields) })
            } else {
                front
            },
            _ => front,
        }
    }
}

/// The fields of a struct: those of the last class of its name.
pub open spec fn struct_fields(s: Seq<StructInfoV>, name: Seq<char>) -> Option<Seq<Seq<char>>>
    decreases s.len(),
{
    if s.len() == 0 {
        None
    } else if s.last().name == name {
        Some(s.last().fields)
    } else {
        struct_fields(s.drop_last(), name)
    }
}

pub struct StructInfo {
    pub name: String,
    pub fields: Vec<String>,
}

impl View for StructInfo {
    type V = StructInfoV;

    open spec fn view(&self) -> StructInfoV {
        StructInfoV { name: self.name@, fields: names_view(self.fields@) }
    }
}

fn get_marked_struct(d: &Decl) -> (r: Option<&String>)
    ensures
        opt_name(r) == marked_struct(d@),
{
    match &d.kind {
        DeclKind::Function(f) => {
            if same(&f.name, "__blinc_struct_type__") {
                match &f.body {
                    Some(b) => {
                        assert(opt_view(f.body) == Some(b@));
                        if b.statements.len() > 0 {
                            assert(b@.statements[0] == b.statements@[0]@);
                            match &b.statements[0].kind {
                                StmtKind::Expression(e) => {
                                    assert(b.statements@[0]@.kind == StmtKindV::Expression(e@));
                                    get_string_value(e)
                                },
                                _ => None,
                            }
                        } else {
                            None
                        }
                    },
                    None => None,
                }
            } else {
                None
            }
        },
        _ => None,
    }
}

fn collect_marked(decls: &Vec<Decl>) -> (r: Vec<String>)
    ensures
        names_view(r@) == marked_structs(views(decls@)),
{
    let ghost all = views(decls@);
    let mut r: Vec<String> = Vec::new();
    assert(names_view(r@) =~= marked_structs(all.take(0)));
    for i in 0..decls.len()
        invariant
            all == views(decls@),
            names_view(r@) == marked_structs(all.take(i as int)),
    {
        proof {
            assert(all.take(i + 1).drop_last() =~= all.take(i as int));
        }
        match get_marked_struct(&decls[i]) {
            Some(name) => {
                let owned = name.clone();
                assert(names_view(r@.push(owned)) =~= names_view(r@).push(owned@));
                r.push(owned);
            },
            None => {},
        }
    }
    assert(all.take(all.len() as int) =~= all);
    r
}

fn copy_field_names(fields: &Vec<Field>) -> (r: Vec<String>)
    ensures
        names_view(r@) == field_names(views(fields@)),
{
    let mut r: Vec<String> = Vec::new();
    for i in 0..fields.len()
        invariant
            r@.len() == i,
            forall|k: int| 0 <= k < i ==> (#[trigger] r@[k])@ == fields@[k]@.name,
    {
        r.push(fields[i].name.clone());
    }
    assert(names_view(r@) =~= field_names(views(fields@)));
    r
}

fn collect_structs(decls: &Vec<Decl>, marked: &Vec<String>) -> (r: Vec<StructInfo>)
    ensures
        views(r@) == declared_structs(views(decls@), names_view(marked@)),
{
    let ghost all = views(decls@);
    let ghost names = names_view(marked@);
    let mut r: Vec<StructInfo> = Vec::new();
    assert(views(r@) =~= declared_structs(all.take(0), names));
    for i in 0..decls.len()
        invariant
            all == views(decls@),
            names == names_view(marked@),
            views(r@) == declared_structs(all.take(i as int), names),
    {
        proof {
            assert(all.take(i + 1).drop_last() =~= all.take(i as int));
        }
        match &decls[i].kind {
            DeclKind::Class(c) => {
                if contains_name(marked, &c.name) {
                    let info = StructInfo {
                        name: c.name.clone(),
                        fields: copy_field_names(&c.fields),
                    };
                    assert(views(r@.push(info)) =~= views(r@).push(info@));
                    r.push(info);
                }
            },
            _ => {},
        }
    }
    assert(all.take(all.len() as int) =~= all);
    r
}

fn find_struct<'a>(structs: &'a Vec<StructInfo>, name: &String) -> (r: Option<&'a Vec<String>>)
    ensures
        match r {
            Some(fields) => struct_fields(views(structs@), name@) == Some(names_view(fields@)),
            None => struct_fields(views(structs@), name@) is None,
        },
{
    let ghost all = views(structs@);
    let mut i: usize = structs.len();
    assert(all.take(i as int) =~= all);
    while i > 0
        invariant
            i <= structs@.len(),
            all == views(structs@),
            struct_fields(all, name@) == struct_fields(all.take(i as int), name@),
        decreases i,
    {
        proof {
            assert(all.take(i as int).drop_last() =~= all.take(i - 1));
        }
        i = i - 1;
        if structs[i].name == *name {
            return Some(&structs[i].fields);
        }
    }
    None
}

// ---------------------------------------------------------------------------
// Messages
// ---------------------------------------------------------------------------

pub open spec fn takes_no_body(name: Seq<char>) -> Seq<char> {
    "struct `"@ + name + "` constructors do not accept child bodies; use `"@ + name
        + "(field = value)`"@
}

pub open spec fn needs_names(name: Seq<char>) -> Seq<char> {
    "struct `"@ + name + "` constructors require named fields, e.g. `"@ + name
        + "(field = value)`"@
}

pub open spec fn given_twice(name: Seq<char>, field: Seq<char>) -> Seq<char> {
    "struct `"@ + name + "` field `"@ + field + "` is specified more than once"@
}

pub open spec fn has_no_field(name: Seq<char>, field: Seq<char>) -> Seq<char> {
    "struct `"@ + name + "` has no field named `"@ + field + "`"@
}

pub open spec fn misses_field(name: Seq<char>, field: Seq<char>) -> Seq<char> {
    "struct `"@ + name + "` constructor is missing field `"@ + field + "`"@
}

fn message(name: &String, middle: &str, second: &String, tail: &str) -> (r: String)
    ensures
        r@ == "struct `"@ + name@ + middle@ + second@ + tail@,
{
    let mut r: String = "struct `".to_owned();
    r.append(name.as_str());
    r.append(middle);
    r.append(second.as_str());
    r.append(tail);
    r
}

// ---------------------------------------------------------------------------
// One constructor call
// ---------------------------------------------------------------------------

/// The field and value that a `__named__("field", value)` marker with exactly
/// these two arguments passes.
pub open spec fn field_marker(e: ExprV) -> Option<(Seq<char>, ExprV)> {
    match e.kind {
        ExprKindV::Call(c) => if callee_name(c) == Some("__named__"@) && c.positional_args.len()
            == 2 {
            match string_arg(c, 0) {
                Some(name) => Some((name, c.positional_args[1])),
                None => None,
            }
        } else {
            None
        },
        _ => None,
    }
}

/// What the arguments of a constructor call supply, and what is wrong with
/// them.
pub struct SuppliedV {
    pub values: Seq<(Seq<char>, ExprV)>,
    pub errors: Seq<Seq<char>>,
}

pub open spec fn value_names(s: Seq<(Seq<char>, ExprV)>) -> Seq<Seq<char>> {
    Seq::new(s.len(), |i: int| s[i].0)
}

pub open spec fn supplied(name: Seq<char>, args: Seq<ExprV>) -> SuppliedV
    decreases args.len(),
{
    if args.len() == 0 {
        SuppliedV { values: seq![], errors: seq![] }
    } else {
        let front = supplied(name, args.drop_last());
        if args.last().kind is Block {
            SuppliedV { errors: front.errors.push(takes_no_body(name)), ..front }
        } else {
            match field_marker(args.last()) {
                None => SuppliedV { errors: front.errors.push(needs_names(name)), ..front },
                Some((field, value)) => if value_names(front.values).contains(field) {
                    SuppliedV { errors: front.errors.push(given_twice(name, field)), ..front }
                } else {
                    SuppliedV { values: front.values.push((field, value)), ..front }
                },
            }
        }
    }
}

/// A message for every supplied field that the struct does not have.
pub open spec fn unknown_fields(
    name: Seq<char>,
    values: Seq<(Seq<char>, ExprV)>,
    fields: Seq<Seq<char>>,
) -> Seq<Seq<char>>
    decreases values.len(),
{
    if values.len() == 0 {
        seq![]
    } else {
        let front = unknown_fields(name, values.drop_last(), fields);
        if fields.contains(values.last().0) {
            front
        } else {
            front.push(has_no_field(name, values.last().0))
        }
    }
}

/// The value supplied for a field.
pub open spec fn value_of(values: Seq<(Seq<char>, ExprV)>, field: Seq<char>) -> Option<ExprV>
    decreases values.len(),
{
    if values.len() == 0 {
        None
    } else if values.last().0 == field {
        Some(values.last().1)
    } else {
        value_of(values.drop_last(), field)
    }
}

/// The initialisers of the fields, in the order of the struct, and a message
/// for every field that got none. A value serves one field only.
pub struct FilledV {
    pub inits: Seq<FieldInitV>,
    pub errors: Seq<Seq<char>>,
}

pub open spec fn filled(
    name: Seq<char>,
    values: Seq<(Seq<char>, ExprV)>,
    fields: Seq<Seq<char>>,
) -> FilledV
    decreases fields.len(),
{
    if fields.len() == 0 {
        FilledV { inits: seq![], errors: seq![] }
    } else {
        let front = filled(name, values, fields.drop_last());
        let field = fields.last();
        match value_of(values, field) {
            Some(value) => if fields.drop_last().contains(field) {
                FilledV { errors: front.errors.push(misses_field(name, field)), ..front }
            } else {
                FilledV { inits: front.inits.push(FieldInitV { name: field, value }), ..front }
            },
            None => FilledV { errors: front.errors.push(misses_field(name, field)), ..front },
        }
    }
}

/// What is wrong with a constructor call.
pub open spec fn constructor_errors(
    name: Seq<char>,
    args: Seq<ExprV>,
    fields: Seq<Seq<char>>,
) -> Seq<Seq<char>> {
    let s = supplied(name, args);
    s.errors + unknown_fields(name, s.values, fields) + filled(name, s.values, fields).errors
}

/// The struct, with its fields, that a call constructs.
pub open spec fn constructs(structs: Seq<StructInfoV>, e: ExprV) -> Option<
    (Seq<char>, Seq<Seq<char>>, Seq<ExprV>),
> {
    match e.kind {
        ExprKindV::Call(c) => match component_name(c) {
            Some(name) => match struct_fields(structs, name) {
                Some(fields) => Some((name, fields, c.positional_args.skip(1))),
                None => None,
            },
            None => None,
        },
        _ => None,
    }
}

/// A constructor call as a struct literal. The messages about it are added to
/// those so far; as soon as there is one, calls stay as they are.
pub open spec fn literal(structs: Seq<StructInfoV>, errors: Seq<Seq<char>>, e: ExprV) -> (
    ExprV,
    Seq<Seq<char>>,
) {
    match constructs(structs, e) {
        Some((name, fields, args)) => {
            let now = errors + constructor_errors(name, args, fields);
            if now.len() == 0 {
                (
                    ExprV {
                        kind: ExprKindV::Struct {
                            name,
                            fields: filled(name, supplied(name, args).values, fields).inits,
                        },
                        ty: TypeV::Unresolved(name),
                        span: e.span,
                    },
                    now,
                )
            } else {
                (e, now)
            }
        },
        None => (e, errors),
    }
}

fn get_field_marker(e: &Expr) -> (r: Option<(String, Expr)>)
    ensures
        opt_view(r) == field_marker(e@),
{
    match &e.kind {
        ExprKind::Call(c) => {
            if c.positional_args.len() == 2 && calls(c, "__named__") {
                match get_string_arg(c, 0) {
                    Some(name) => Some((name.clone(), c.positional_args[1].copied())),
                    None => None,
                }
            } else {
                None
            }
        },
        _ => None,
    }
}

fn has_value(values: &Vec<(String, Expr)>, field: &String) -> (r: bool)
    ensures
        r == value_names(views(values@)).contains(field@),
{
    let ghost names = value_names(views(values@));
    let mut i: usize = 0;
    while i < values.len()
        invariant
            i <= values@.len(),
            names == value_names(views(values@)),
            forall|k: int| 0 <= k < i ==> #[trigger] names[k] != field@,
        decreases values@.len() - i,
    {
        assert(names[i as int] == values@[i as int].0@);
        if values[i].0 == *field {
            return true;
        }
        i = i + 1;
    }
    false
}

fn collect_supplied(name: &String, args: &Vec<Expr>, errors: &mut Messages) -> (r: Vec<
    (String, Expr),
>)
    requires
        args@.len() > 0,
    ensures
        views(r@) == supplied(name@, exprs_view(args@).skip(1)).values,
        final(errors)@ == old(errors)@ + supplied(name@, exprs_view(args@).skip(1)).errors,
{
    let ghost all = exprs_view(args@).skip(1);
    let ghost errors0 = errors@;
    let mut values: Vec<(String, Expr)> = Vec::new();
    proof {
        assert(views(values@) =~= supplied(name@, all.take(0)).values);
        assert(errors0 + supplied(name@, all.take(0)).errors =~= errors0);
    }
    for i in 1..args.len()
        invariant
            args@.len() > 0,
            all == exprs_view(args@).skip(1),
            views(values@) == supplied(name@, all.take(i - 1)).values,
            errors@ == errors0 + supplied(name@, all.take(i - 1)).errors,
    {
        let ghost now = all.take(i as int);
        let ghost before = supplied(name@, all.take(i - 1));
        proof {
            assert(now.drop_last() =~= all.take(i - 1));
            assert(now.last() == args@[i as int]@);
        }
        let arg = &args[i];
        let is_block = match &arg.kind {
            ExprKind::Block(_) => true,
            _ => false,
        };
        if is_block {
            errors.push(
                message(
                    name,
                    "` constructors do not accept child bodies; use `",
                    name,
                    "(field = value)`",
                ),
            );
            assert(errors@ =~= errors0 + supplied(name@, now).errors);
        } else {
            match get_field_marker(arg) {
                Some(pair) => {
                    if has_value(&values, &pair.0) {
                        errors.push(
                            message(
                                name,
                                "` field `",
                                &pair.0,
                                "` is specified more than once",
                            ),
                        );
                        assert(errors@ =~= errors0 + supplied(name@, now).errors);
                    } else {
                        assert(views(values@.push(pair)) =~= views(values@).push(pair@));
                        values.push(pair);
                    }
                },
                None => {
                    errors.push(
                        message(
                            name,
                            "` constructors require named fields, e.g. `",
                            name,
                            "(field = value)`",
                        ),
                    );
                    assert(errors@ =~= errors0 + supplied(name@, now).errors);
                },
            }
        }
    }
    assert(all.take(all.len() as int) =~= all);
    values
}

fn report_unknown(
    name: &String,
    values: &Vec<(String, Expr)>,
    fields: &Vec<String>,
    errors: &mut Messages,
)
    ensures
        final(errors)@ == old(errors)@ + unknown_fields(
            name@,
            views(values@),
            names_view(fields@),
        ),
{
    let ghost all = views(values@);
    let ghost known = names_view(fields@);
    let ghost errors0 = errors@;
    assert(errors0 + unknown_fields(name@, all.take(0), known) =~= errors0);
    for i in 0..values.len()
        invariant
            all == views(values@),
            known == names_view(fields@),
            errors@ == errors0 + unknown_fields(name@, all.take(i as int), known),
    {
        proof {
            assert(all.take(i + 1).drop_last() =~= all.take(i as int));
            assert(all[i as int] == (values@[i as int].0@, values@[i as int].1@));
        }
        if !contains_name(fields, &values[i].0) {
            errors.push(message(name, "` has no field named `", &values[i].0, "`"));
            assert(errors@ =~= errors0 + unknown_fields(name@, all.take(i + 1), known));
        }
    }
    assert(all.take(all.len() as int) =~= all);
}

fn find_value<'a>(values: &'a Vec<(String, Expr)>, field: &String) -> (r: Option<&'a Expr>)
    ensures
        match r {
            Some(e) => value_of(views(values@), field@) == Some(e@),
            None => value_of(views(values@), field@) is None,
        },
{
    let ghost all = views(values@);
    let mut i: usize = values.len();
    assert(all.take(i as int) =~= all);
    while i > 0
        invariant
            i <= values@.len(),
            all == views(values@),
            value_of(all, field@) == value_of(all.take(i as int), field@),
        decreases i,
    {
        proof {
            assert(all.take(i as int).drop_last() =~= all.take(i - 1));
            assert(all[i - 1] == (values@[i - 1].0@, values@[i - 1].1@));
        }
        i = i - 1;
        if values[i].0 == *field {
            return Some(&values[i].1);
        }
    }
    None
}

/// Whether one of the first `n` names is `field`.
fn among_first(fields: &Vec<String>, n: usize, field: &String) -> (r: bool)
    requires
        n <= fields@.len(),
    ensures
        r == names_view(fields@).take(n as int).contains(field@),
{
    let ghost names = names_view(fields@).take(n as int);
    let mut i: usize = 0;
    while i < n
        invariant
            i <= n <= fields@.len(),
            names == names_view(fields@).take(n as int),
            forall|k: int| 0 <= k < i ==> #[trigger] names[k] != field@,
        decreases n - i,
    {
        assert(names[i as int] == fields@[i as int]@);
        if fields[i] == *field {
            return true;
        }
        i = i + 1;
    }
    false
}

fn fill_fields(
    name: &String,
    values: &Vec<(String, Expr)>,
    fields: &Vec<String>,
    errors: &mut Messages,
) -> (r: Vec<FieldInit>)
    ensures
        field_inits_view(r@) == filled(name@, views(values@), names_view(fields@)).inits,
        final(errors)@ == old(errors)@ + filled(
            name@,
            views(values@),
            names_view(fields@),
        ).errors,
{
    let ghost given = views(values@);
    let ghost all = names_view(fields@);
    let ghost errors0 = errors@;
    let mut inits: Vec<FieldInit> = Vec::new();
    proof {
        assert(field_inits_view(inits@) =~= filled(name@, given, all.take(0)).inits);
        assert(errors0 + filled(name@, given, all.take(0)).errors =~= errors0);
    }
    for i in 0..fields.len()
        invariant
            given == views(values@),
            all == names_view(fields@),
            field_inits_view(inits@) == filled(name@, given, all.take(i as int)).inits,
            errors@ == errors0 + filled(name@, given, all.take(i as int)).errors,
    {
        let ghost now = all.take(i + 1);
        proof {
            assert(now.drop_last() =~= all.take(i as int));
        }
        let field = &fields[i];
        let mut done = false;
        match find_value(values, field) {
            Some(value) => {
                if !among_first(fields, i, field) {
                    let init = FieldInit { name: field.clone(), value: value.copied() };
                    assert(field_inits_view(inits@.push(init)) =~= field_inits_view(inits@).push(
                        init@,
                    ));
                    inits.push(init);
                    done = true;
                }
            },
            None => {},
        }
        if !done {
            errors.push(message(name, "` constructor is missing field `", field, "`"));
            assert(errors@ =~= errors0 + filled(name@, given, now).errors);
        }
    }
    assert(all.take(all.len() as int) =~= all);
    inits
}

fn lower_constructor(structs: &Vec<StructInfo>, errors: &mut Messages, e: Expr) -> (out: Expr)
    ensures
        (out@, final(errors)@) == literal(views(structs@), old(errors)@, e@),
{
    let ghost errors0 = errors@;
    match &e.kind {
        ExprKind::Call(c) => match get_component_name(c) {
            Some(name) => match find_struct(structs, &name) {
                Some(fields) => {
                    let values = collect_supplied(&name, &c.positional_args, errors);
                    report_unknown(&name, &values, fields, errors);
                    let inits = fill_fields(&name, &values, fields, errors);
                    proof {
                        let args = exprs_view(c.positional_args@).skip(1);
                        assert(errors@ =~= errors0 + constructor_errors(
                            name@,
                            args,
                            names_view(fields@),
                        ));
                        assert(constructs(views(structs@), e@) == Some(
                            (name@, names_view(fields@), args),
                        ));
                    }
                    if errors.items.len() == 0 {
                        assert(errors@.len() == 0);
                        let ty = Type::Unresolved(name.clone());
                        return Expr {
                            kind: ExprKind::Struct { name, fields: inits },
                            ty,
                            span: e.span,
                        };
                    }
                    assert(errors@.len() > 0);
                },
                None => {},
            },
            None => {},
        },
        _ => {},
    }
    e
}

// ---------------------------------------------------------------------------
// The pass
// ---------------------------------------------------------------------------

/// The lowering of constructor calls as a rewriting rule. The state is the
/// list of messages so far.
pub open spec fn literal_rule(structs: Seq<StructInfoV>) -> Rule<Seq<Seq<char>>> {
    Rule {
        expr: |errors: Seq<Seq<char>>, e: ExprV| literal(structs, errors, e),
        block: |s: Seq<StmtV>| s,
    }
}

struct StructLiterals<'a> {
    structs: &'a Vec<StructInfo>,
}

impl<'a> Rewriter for StructLiterals<'a> {
    type State = Messages;

    closed spec fn rule(&self) -> Rule<Seq<Seq<char>>> {
        literal_rule(views(self.structs@))
    }

    fn apply_expr(&self, st: &mut Messages, e: Expr) -> (out: Expr) {
        lower_constructor(self.structs, st, e)
    }

    fn apply_block(&self, s: Vec<Stmt>) -> (out: Vec<Stmt>) {
        s
    }
}

/// The declarations that are no struct markers.
pub open spec fn without_markers(s: Seq<DeclV>) -> Seq<DeclV> {
    s.filter(|d: DeclV| marked_struct(d) is None)
}

/// A program with its struct markers taken out and its constructor calls
/// lowered, and the messages about them.
pub open spec fn structs_lowered(p: ProgramV) -> (ProgramV, Seq<Seq<char>>) {
    let marked = marked_structs(p.declarations);
    if marked.len() == 0 {
        (p, seq![])
    } else {
        walk_program(
            literal_rule(declared_structs(p.declarations, marked)),
            seq![],
            ProgramV { declarations: without_markers(p.declarations), ..p },
        )
    }
}

fn strip_markers(decls: Vec<Decl>) -> (out: Vec<Decl>)
    ensures
        views(out@) == without_markers(views(decls@)),
{
    let ghost all = views(decls@);
    let ghost decls0 = decls@;
    let mut out: Vec<Decl> = Vec::new();
    proof {
        reveal(Seq::filter);
        assert(views(out@) =~= without_markers(all.take(0)));
    }
    for d in it: decls
        invariant
            it.seq() == decls0,
            all == views(decls0),
            views(out@) == without_markers(all.take(it.index() as int)),
    {
        proof {
            reveal(Seq::filter);
            let i = it.index() as int;
            assert(all.take(i + 1).drop_last() =~= all.take(i));
            assert(d@ == all[i]);
        }
        if get_marked_struct(&d).is_none() {
            assert(views(out@.push(d)) =~= views(out@).push(d@));
            out.push(d);
        }
    }
    assert(all.take(all.len() as int) =~= all);
    out
}

/// Lower constructor calls of structs, `Name(field = value, ..)`, to struct
/// literals. Fails with all messages if one of the calls is wrong.
pub fn lower_struct_literals(program: &mut Program) -> (r: Result<(), Vec<String>>)
    ensures
        final(program)@ == structs_lowered(old(program)@).0,
        match r {
            Ok(()) => structs_lowered(old(program)@).1.len() == 0,
            Err(messages) => messages@.len() > 0 && names_view(messages@) == structs_lowered(
                old(program)@,
            ).1,
        },
{
    let marked = collect_marked(&program.declarations);
    if marked.len() == 0 {
        assert(names_view(marked@).len() == 0);
        return Ok(());
    }
    assert(names_view(marked@).len() > 0);
    let structs = collect_structs(&program.declarations, &marked);
    let mut declarations: Vec<Decl> = Vec::new();
    std::mem::swap(&mut program.declarations, &mut declarations);
    let rule = StructLiterals { structs: &structs };
    let mut errors = Messages::new();
    let kept = strip_markers(declarations);
    program.declarations = rewrite_decls(&rule, &mut errors, kept);
    if errors.items.len() == 0 {
        assert(errors@.len() == 0);
        Ok(())
    } else {
        Err(errors.items)
    }
}

// ---------------------------------------------------------------------------
// Laws
// ---------------------------------------------------------------------------

proof fn filled_completely(
    name: Seq<char>,
    values: Seq<(Seq<char>, ExprV)>,
    fields: Seq<Seq<char>>,
)
    requires
        filled(name, values, fields).errors.len() == 0,
    ensures
        filled(name, values, fields).inits.len() == fields.len(),
        forall|i: int|
            0 <= i < fields.len() ==> (#[trigger] filled(name, values, fields).inits[i]).name
                == fields[i] && value_of(values, fields[i]) == Some(
                filled(name, values, fields).inits[i].value,
            ),
        fields.no_duplicates(),
    decreases fields.len(),
{
    if fields.len() > 0 {
        let front = fields.drop_last();
        filled_completely(name, values, front);
        let out = filled(name, values, fields).inits;
        assert forall|i: int| 0 <= i < fields.len() implies (#[trigger] out[i]).name == fields[i]
            && value_of(values, fields[i]) == Some(out[i].value) by {
            if i < front.len() {
                assert(out[i] == filled(name, values, front).inits[i]);
                assert(fields[i] == front[i]);
            }
        }
        assert forall|i: int, j: int| 0 <= i < fields.len() && 0 <= j < fields.len() && i
            != j implies fields[i] != fields[j] by {
            if i < front.len() && j < front.len() {
                assert(front[i] == fields[i] && front[j] == fields[j]);
            } else if i < front.len() {
                assert(front[i] == fields[i]);
            } else {
                assert(front[j] == fields[j]);
            }
        }
    }
}

proof fn all_known(name: Seq<char>, values: Seq<(Seq<char>, ExprV)>, fields: Seq<Seq<char>>)
    requires
        unknown_fields(name, values, fields).len() == 0,
    ensures
        forall|i: int| 0 <= i < values.len() ==> fields.contains((#[trigger] values[i]).0),
    decreases values.len(),
{
    if values.len() > 0 {
        all_known(name, values.drop_last(), fields);
        assert forall|i: int| 0 <= i < values.len() implies fields.contains(
            (#[trigger] values[i]).0,
        ) by {
            if i < values.len() - 1 {
                assert(values[i] == values.drop_last()[i]);
            }
        }
    }
}

/// A constructor call without a message gives every field of the struct its
/// value, once and in the struct's order, and supplies nothing else.
pub proof fn faultless_constructor_is_complete(
    name: Seq<char>,
    args: Seq<ExprV>,
    fields: Seq<Seq<char>>,
)
    requires
        constructor_errors(name, args, fields).len() == 0,
    ensures
        ({
            let values = supplied(name, args).values;
            let inits = filled(name, values, fields).inits;
            &&& inits.len() == fields.len()
            &&& forall|i: int|
                0 <= i < fields.len() ==> (#[trigger] inits[i]).name == fields[i] && value_of(
                    values,
                    fields[i],
                ) == Some(inits[i].value)
            &&& forall|i: int| 0 <= i < values.len() ==> fields.contains((#[trigger] values[i]).0)
            &&& fields.no_duplicates()
        }),
{
    let values = supplied(name, args).values;
    filled_completely(name, values, fields);
    all_known(name, values, fields);
}

/// The law that no expression constructs one of the structs by a call.
pub open spec fn no_constructor_law(structs: Seq<StructInfoV>) -> Law {
    Law {
        p: |e: ExprV| constructs(structs, e) is None,
        q: |s: Seq<StmtV>| true,
    }
}

proof fn supplied_in_law(structs: Seq<StructInfoV>, name: Seq<char>, args: Seq<ExprV>)
    requires
        in_exprs(no_constructor_law(structs), args),
    ensures
        forall|i: int|
            0 <= i < supplied(name, args).values.len() ==> in_expr(
                no_constructor_law(structs),
                (#[trigger] supplied(name, args).values[i]).1,
            ),
    decreases args.len(),
{
    let l = no_constructor_law(structs);
    if args.len() > 0 {
        assert forall|i: int| 0 <= i < args.drop_last().len() implies in_expr(
            l,
            #[trigger] args.drop_last()[i],
        ) by {
            assert(args.drop_last()[i] == args[i]);
        }
        supplied_in_law(structs, name, args.drop_last());
        assert(in_expr(l, args.last()));
        match args.last().kind {
            ExprKindV::Call(c) => {
                assert(in_call(l, c));
                if c.positional_args.len() == 2 {
                    assert(in_expr(l, c.positional_args[1]));
                }
            },
            _ => {},
        }
        let before = supplied(name, args.drop_last()).values;
        let after = supplied(name, args).values;
        assert forall|i: int| 0 <= i < after.len() implies in_expr(l, (#[trigger] after[i]).1) by {
            if i < before.len() {
                assert(after[i] == before[i]);
            }
        }
    }
}

proof fn value_in_law(l: Law, values: Seq<(Seq<char>, ExprV)>, field: Seq<char>)
    requires
        forall|i: int| 0 <= i < values.len() ==> in_expr(l, (#[trigger] values[i]).1),
        value_of(values, field) is Some,
    ensures
        in_expr(l, value_of(values, field)->0),
    decreases values.len(),
{
    if values.last().0 == field {
        assert(in_expr(l, values[values.len() - 1].1));
    } else {
        assert forall|i: int| 0 <= i < values.drop_last().len() implies in_expr(
            l,
            (#[trigger] values.drop_last()[i]).1,
        ) by {
            assert(values.drop_last()[i] == values[i]);
        }
        value_in_law(l, values.drop_last(), field);
    }
}

proof fn literal_in_law(structs: Seq<StructInfoV>, errors: Seq<Seq<char>>, e: ExprV)
    requires
        in_expr_kind(no_constructor_law(structs), e.kind),
        literal(structs, errors, e).1.len() == 0,
    ensures
        in_expr(no_constructor_law(structs), literal(structs, errors, e).0),
{
    let l = no_constructor_law(structs);
    match constructs(structs, e) {
        Some((name, fields, args)) => {
            match e.kind {
                ExprKindV::Call(c) => {
                    assert(in_call(l, c));
                    assert forall|i: int| 0 <= i < args.len() implies in_expr(
                        l,
                        #[trigger] args[i],
                    ) by {
                        assert(args[i] == c.positional_args[i + 1]);
                    }
                },
                _ => {},
            }
            faultless_constructor_is_complete(name, args, fields);
            supplied_in_law(structs, name, args);
            let values = supplied(name, args).values;
            let inits = filled(name, values, fields).inits;
            assert forall|i: int| 0 <= i < inits.len() implies in_expr(
                l,
                (#[trigger] inits[i]).value,
            ) by {
                value_in_law(l, values, fields[i]);
            }
            assert(in_field_inits(l, inits));
            let out = literal(structs, errors, e).0;
            assert(in_expr_kind(l, out.kind));
        },
        None => {},
    }
}

/// When the pass succeeds, no constructor call of a struct is left, wherever
/// the pass looks.
pub proof fn constructor_calls_are_gone(p: ProgramV)
    requires
        marked_structs(p.declarations).len() > 0,
        structs_lowered(p).1.len() == 0,
    ensures
        in_program(
            no_constructor_law(declared_structs(p.declarations, marked_structs(p.declarations))),
            structs_lowered(p).0,
        ),
{
    let structs = declared_structs(p.declarations, marked_structs(p.declarations));
    let r = literal_rule(structs);
    let l = no_constructor_law(structs);
    let ok = |errors: Seq<Seq<char>>| errors.len() == 0;
    assert forall|st: Seq<Seq<char>>, e: ExprV| ok((#[trigger] (r.expr)(st, e)).1) implies ok(st)
        && (in_expr_kind(l, e.kind) ==> in_expr(l, (r.expr)(st, e).0)) by {
        if in_expr_kind(l, e.kind) {
            literal_in_law(structs, st, e);
        }
    }
    let stripped = ProgramV { declarations: without_markers(p.declarations), ..p };
    establish_program(r, l, ok, seq![], stripped);
}

} // verus!
