//! The interface to the runtime: how types cross it, and which functions the
//! host provides.

use vstd::prelude::*;

use crate::ast::{views, PrimitiveType, Type};
use crate::component::{ComponentDefinitionV, PropDefV};
use crate::model::TypeV;
use crate::publish::{div_component, text_component};
use crate::shape::prim;
use crate::signals::{getter_name, setter_name};
use crate::styling::overlay_setter;
use crate::text::{has_prefix, has_suffix};

verus! {

/// How a value is tagged in the signature of a symbol.
#[derive(Clone, Copy, Debug, PartialEq, Eq, Structural)]
pub enum TypeTag {
    Void,
    String,
    I32,
    I64,
    F64,
}

/// How a value is passed in a call.
#[derive(Clone, Copy, Debug, PartialEq, Eq, Structural)]
pub enum NativeType {
    Void,
    Ptr,
    I32,
    I64,
    F64,
}

/// The flags of a signature that has none.
pub const NO_FLAGS: u8 = 0;

/// The largest number of parameters that a signature has room for.
pub const MAX_PARAMS: usize = 16;

/// The tag of a type, if it can cross the interface.
pub open spec fn tag_of(ty: TypeV) -> Option<TypeTag> {
    match ty {
        TypeV::Primitive(PrimitiveType::Unit) => Some(TypeTag::Void),
        TypeV::Primitive(PrimitiveType::String) => Some(TypeTag::String),
        TypeV::Primitive(PrimitiveType::I32) => Some(TypeTag::I32),
        TypeV::Primitive(PrimitiveType::I64) => Some(TypeTag::I64),
        TypeV::Primitive(PrimitiveType::F64) => Some(TypeTag::F64),
        _ => None,
    }
}

/// The native type of a type, if it can cross the interface.
pub open spec fn native_of(ty: TypeV) -> Option<NativeType> {
    match ty {
        TypeV::Primitive(PrimitiveType::Unit) => Some(NativeType::Void),
        TypeV::Primitive(PrimitiveType::String) => Some(NativeType::Ptr),
        TypeV::Primitive(PrimitiveType::I32) => Some(NativeType::I32),
        TypeV::Primitive(PrimitiveType::I64) => Some(NativeType::I64),
        TypeV::Primitive(PrimitiveType::F64) => Some(NativeType::F64),
        _ => None,
    }
}

/// The tag of a type that can cross the interface.
pub fn type_to_tag(ty: &Type) -> (r: TypeTag)
    requires
        tag_of(ty@) is Some,
    ensures
        tag_of(ty@) == Some(r),
{
    match ty {
        Type::Primitive(PrimitiveType::String) => TypeTag::String,
        Type::Primitive(PrimitiveType::I32) => TypeTag::I32,
        Type::Primitive(PrimitiveType::I64) => TypeTag::I64,
        Type::Primitive(PrimitiveType::F64) => TypeTag::F64,
        _ => TypeTag::Void,
    }
}

/// The native type of a type, or the type itself where it has none.
pub fn type_to_native(ty: &Type) -> (r: Result<NativeType, &Type>)
    ensures
        match r {
            Ok(n) => native_of(ty@) == Some(n),
            Err(t) => native_of(ty@) is None && t == ty,
        },
{
    match ty {
        Type::Primitive(PrimitiveType::Unit) => Ok(NativeType::Void),
        Type::Primitive(PrimitiveType::String) => Ok(NativeType::Ptr),
        Type::Primitive(PrimitiveType::I32) => Ok(NativeType::I32),
        Type::Primitive(PrimitiveType::I64) => Ok(NativeType::I64),
        Type::Primitive(PrimitiveType::F64) => Ok(NativeType::F64),
        other => Err(other),
    }
}

/// A type can be tagged exactly when it has a native type.
pub proof fn tagged_means_native(ty: TypeV)
    ensures
        tag_of(ty) is Some <==> native_of(ty) is Some,
{
}

// ---------------------------------------------------------------------------
// Signatures
// ---------------------------------------------------------------------------

/// The signature of a symbol. `params` has room for the largest number of
/// parameters; unused places are void.
#[derive(Debug, PartialEq, Eq)]
pub struct SymbolSig {
    pub param_count: u8,
    pub flags: u8,
    pub return_type: TypeTag,
    pub params: Vec<TypeTag>,
}

/// Whether a signature can be made for these types.
pub open spec fn can_sign(params: Seq<TypeV>, result: TypeV) -> bool {
    &&& params.len() <= MAX_PARAMS
    &&& forall|i: int| 0 <= i < params.len() ==> tag_of(#[trigger] params[i]) is Some
    &&& tag_of(result) is Some
}

/// Whether `sig` is the signature for these types.
pub open spec fn is_signature(sig: SymbolSig, params: Seq<TypeV>, result: TypeV) -> bool {
    &&& sig.param_count == params.len()
    &&& sig.flags == NO_FLAGS
    &&& tag_of(result) == Some(sig.return_type)
    &&& sig.params@.len() == MAX_PARAMS
    &&& forall|i: int|
        0 <= i < MAX_PARAMS ==> #[trigger] sig.params@[i] == if i < params.len() {
            tag_of(params[i])->0
        } else {
            TypeTag::Void
        }
}

/// Whether a signature can be made for these types.
pub fn is_signable(params: &Vec<Type>, result: &Type) -> (r: bool)
    ensures
        r == can_sign(views(params@), result@),
{
    proof {
        tagged_means_native(result@);
    }
    if params.len() > MAX_PARAMS || type_to_native(result).is_err() {
        return false;
    }
    let ghost all = views(params@);
    for i in 0..params.len()
        invariant
            all == views(params@),
            forall|k: int| 0 <= k < i ==> tag_of(#[trigger] all[k]) is Some,
    {
        proof {
            assert(all[i as int] == params@[i as int]@);
            tagged_means_native(all[i as int]);
        }
        if type_to_native(&params[i]).is_err() {
            return false;
        }
    }
    true
}

/// The signature for some parameter types and a result type.
pub fn signature_for(params: &Vec<Type>, result: &Type) -> (sig: SymbolSig)
    requires
        can_sign(views(params@), result@),
    ensures
        is_signature(sig, views(params@), result@),
{
    let ghost all = views(params@);
    let mut tags: Vec<TypeTag> = Vec::new();
    for i in 0..MAX_PARAMS
        invariant
            all == views(params@),
            can_sign(all, result@),
            tags@.len() == i,
            forall|k: int|
                0 <= k < i ==> #[trigger] tags@[k] == if k < all.len() {
                    tag_of(all[k])->0
                } else {
                    TypeTag::Void
                },
    {
        if i < params.len() {
            assert(all[i as int] == params@[i as int]@);
            tags.push(type_to_tag(&params[i]));
        } else {
            tags.push(TypeTag::Void);
        }
    }
    SymbolSig {
        param_count: params.len() as u8,
        flags: NO_FLAGS,
        return_type: type_to_tag(result),
        params: tags,
    }
}

// ---------------------------------------------------------------------------
// Host functions
// ---------------------------------------------------------------------------

/// A function that the host provides.
#[derive(Debug, PartialEq, Eq)]
pub struct BuiltinDescriptor {
    pub name: String,
    pub param_types: Vec<Type>,
    pub return_type: Type,
}

/// View of [`BuiltinDescriptor`].
pub struct BuiltinV {
    pub name: Seq<char>,
    pub param_types: Seq<TypeV>,
    pub return_type: TypeV,
}

impl View for BuiltinDescriptor {
    type V = BuiltinV;

    open spec fn view(&self) -> BuiltinV {
        BuiltinV {
            name: self.name@,
            param_types: views(self.param_types@),
            return_type: self.return_type@,
        }
    }
}

pub open spec fn builtin(
    name: Seq<char>,
    params: Seq<PrimitiveType>,
    result: PrimitiveType,
) -> BuiltinV {
    BuiltinV {
        name,
        param_types: Seq::new(params.len(), |i: int| prim(params[i])),
        return_type: prim(result),
    }
}

/// The functions that the host provides. Besides `Div` and `Text` it provides
/// no widgets.
pub open spec fn builtin_table() -> Seq<BuiltinV> {
    seq![
        builtin("$Blinc$text"@, seq![PrimitiveType::String], PrimitiveType::Unit),
        builtin("$Blinc$text_int"@, seq![PrimitiveType::I32], PrimitiveType::Unit),
        builtin("__signal_get_i32"@, seq![PrimitiveType::String], PrimitiveType::I32),
        builtin("__signal_get_f64"@, seq![PrimitiveType::String], PrimitiveType::F64),
        builtin("__signal_get_string"@, seq![PrimitiveType::String], PrimitiveType::String),
        builtin(
            "__signal_set_i32"@,
            seq![PrimitiveType::String, PrimitiveType::I32],
            PrimitiveType::Unit,
        ),
        builtin(
            "__signal_set_f64"@,
            seq![PrimitiveType::String, PrimitiveType::F64],
            PrimitiveType::Unit,
        ),
        builtin(
            "__signal_set_string"@,
            seq![PrimitiveType::String, PrimitiveType::String],
            PrimitiveType::Unit,
        ),
        builtin(
            "__fsm_runtime_trigger__"@,
            seq![PrimitiveType::String, PrimitiveType::String],
            PrimitiveType::Unit,
        ),
        builtin(
            "__fsm_subscribe__"@,
            seq![PrimitiveType::String, PrimitiveType::String, PrimitiveType::I64],
            PrimitiveType::Unit,
        ),
        builtin("$Blinc$format_int"@, seq![PrimitiveType::I32], PrimitiveType::String),
        builtin(
            "$Blinc$string_concat"@,
            seq![PrimitiveType::String, PrimitiveType::String],
            PrimitiveType::String,
        ),
        builtin("$Blinc$Text$view"@, seq![PrimitiveType::String], PrimitiveType::I64),
        builtin(
            "$Blinc$Div$view"@,
            seq![PrimitiveType::I64, PrimitiveType::I64, PrimitiveType::String, PrimitiveType::I64],
            PrimitiveType::I64,
        ),
        builtin("__new_child_list__"@, seq![], PrimitiveType::I64),
        builtin(
            "__push_child__"@,
            seq![PrimitiveType::I64, PrimitiveType::I64],
            PrimitiveType::Unit,
        ),
        builtin("__new_style_overlay__"@, seq![], PrimitiveType::I64),
        builtin(
            "__set_overlay_bg__"@,
            seq![PrimitiveType::I64, PrimitiveType::I64],
            PrimitiveType::Unit,
        ),
        builtin(
            "__set_overlay_opacity__"@,
            seq![PrimitiveType::I64, PrimitiveType::F64],
            PrimitiveType::Unit,
        ),
        builtin(
            "__set_overlay_corner_radius__"@,
            seq![PrimitiveType::I64, PrimitiveType::F64],
            PrimitiveType::Unit,
        ),
        builtin(
            "__set_overlay_border_width__"@,
            seq![PrimitiveType::I64, PrimitiveType::F64],
            PrimitiveType::Unit,
        ),
        builtin(
            "__set_overlay_border_color__"@,
            seq![PrimitiveType::I64, PrimitiveType::I64],
            PrimitiveType::Unit,
        ),
    ]
}

fn new_builtin(
    name: &str,
    params: Vec<PrimitiveType>,
    result: PrimitiveType,
) -> (b: BuiltinDescriptor)
    ensures
        b@ == builtin(name@, params@, result),
{
    let mut param_types: Vec<Type> = Vec::new();
    for i in 0..params.len()
        invariant
            param_types@.len() == i,
            forall|k: int| 0 <= k < i ==> (#[trigger] param_types@[k])@ == prim(params@[k]),
    {
        param_types.push(Type::Primitive(params[i]));
    }
    let b = BuiltinDescriptor {
        name: name.to_owned(),
        param_types,
        return_type: Type::Primitive(result),
    };
    assert(b@.param_types =~= builtin(name@, params@, result).param_types);
    b
}

fn taking_0(name: &str, result: PrimitiveType) -> (f: BuiltinDescriptor)
    ensures
        f@ == builtin(name@, seq![], result),
{
    let params: Vec<PrimitiveType> = vec![];
    assert(params@ =~= seq![]);
    new_builtin(name, params, result)
}

fn taking_1(name: &str, a: PrimitiveType, result: PrimitiveType) -> (f: BuiltinDescriptor)
    ensures
        f@ == builtin(name@, seq![a], result),
{
    let params: Vec<PrimitiveType> = vec![a];
    assert(params@ =~= seq![a]);
    new_builtin(name, params, result)
}

fn taking_2(
    name: &str,
    a: PrimitiveType,
    b: PrimitiveType,
    result: PrimitiveType,
) -> (f: BuiltinDescriptor)
    ensures
        f@ == builtin(name@, seq![a, b], result),
{
    let params: Vec<PrimitiveType> = vec![a, b];
    assert(params@ =~= seq![a, b]);
    new_builtin(name, params, result)
}

fn taking_3(
    name: &str,
    a: PrimitiveType,
    b: PrimitiveType,
    c: PrimitiveType,
    result: PrimitiveType,
) -> (f: BuiltinDescriptor)
    ensures
        f@ == builtin(name@, seq![a, b, c], result),
{
    let params: Vec<PrimitiveType> = vec![a, b, c];
    assert(params@ =~= seq![a, b, c]);
    new_builtin(name, params, result)
}

fn taking_4(
    name: &str,
    a: PrimitiveType,
    b: PrimitiveType,
    c: PrimitiveType,
    d: PrimitiveType,
    result: PrimitiveType,
) -> (f: BuiltinDescriptor)
    ensures
        f@ == builtin(name@, seq![a, b, c, d], result),
{
    let params: Vec<PrimitiveType> = vec![a, b, c, d];
    assert(params@ =~= seq![a, b, c, d]);
    new_builtin(name, params, result)
}

/// The functions that the host provides, with their types.
#[verifier::rlimit(50)]
pub fn builtins() -> (r: Vec<BuiltinDescriptor>)
    ensures
        views(r@) == builtin_table(),
{
    let mut table: Vec<BuiltinDescriptor> = Vec::new();
    table.push(taking_1("$Blinc$text", PrimitiveType::String, PrimitiveType::Unit));
    table.push(taking_1("$Blinc$text_int", PrimitiveType::I32, PrimitiveType::Unit));
    table.push(taking_1("__signal_get_i32", PrimitiveType::String, PrimitiveType::I32));
    table.push(taking_1("__signal_get_f64", PrimitiveType::String, PrimitiveType::F64));
    table.push(taking_1("__signal_get_string", PrimitiveType::String, PrimitiveType::String));
    table.push(
        taking_2(
            "__signal_set_i32",
            PrimitiveType::String,
            PrimitiveType::I32,
            PrimitiveType::Unit,
        ),
    );
    table.push(
        taking_2(
            "__signal_set_f64",
            PrimitiveType::String,
            PrimitiveType::F64,
            PrimitiveType::Unit,
        ),
    );
    table.push(
        taking_2(
            "__signal_set_string",
            PrimitiveType::String,
            PrimitiveType::String,
            PrimitiveType::Unit,
        ),
    );
    table.push(
        taking_2(
            "__fsm_runtime_trigger__",
            PrimitiveType::String,
            PrimitiveType::String,
            PrimitiveType::Unit,
        ),
    );
    table.push(
        taking_3(
            "__fsm_subscribe__",
            PrimitiveType::String,
            PrimitiveType::String,
            PrimitiveType::I64,
            PrimitiveType::Unit,
        ),
    );
    table.push(taking_1("$Blinc$format_int", PrimitiveType::I32, PrimitiveType::String));
    table.push(
        taking_2(
            "$Blinc$string_concat",
            PrimitiveType::String,
            PrimitiveType::String,
            PrimitiveType::String,
        ),
    );
    table.push(taking_1("$Blinc$Text$view", PrimitiveType::String, PrimitiveType::I64));
    table.push(
        taking_4(
            "$Blinc$Div$view",
            PrimitiveType::I64,
            PrimitiveType::I64,
            PrimitiveType::String,
            PrimitiveType::I64,
            PrimitiveType::I64,
        ),
    );
    table.push(taking_0("__new_child_list__", PrimitiveType::I64));
    table.push(
        taking_2("__push_child__", PrimitiveType::I64, PrimitiveType::I64, PrimitiveType::Unit),
    );
    table.push(taking_0("__new_style_overlay__", PrimitiveType::I64));
    table.push(
        taking_2("__set_overlay_bg__", PrimitiveType::I64, PrimitiveType::I64, PrimitiveType::Unit),
    );
    table.push(
        taking_2(
            "__set_overlay_opacity__",
            PrimitiveType::I64,
            PrimitiveType::F64,
            PrimitiveType::Unit,
        ),
    );
    table.push(
        taking_2(
            "__set_overlay_corner_radius__",
            PrimitiveType::I64,
            PrimitiveType::F64,
            PrimitiveType::Unit,
        ),
    );
    table.push(
        taking_2(
            "__set_overlay_border_width__",
            PrimitiveType::I64,
            PrimitiveType::F64,
            PrimitiveType::Unit,
        ),
    );
    table.push(
        taking_2(
            "__set_overlay_border_color__",
            PrimitiveType::I64,
            PrimitiveType::I64,
            PrimitiveType::Unit,
        ),
    );
    assert(views(table@) =~= builtin_table());
    table
}

/// A host function as it is registered: its symbol and its signature.
#[derive(Debug, PartialEq, Eq)]
pub struct BuiltinSymbol {
    pub name: String,
    pub sig: SymbolSig,
}

/// The signature of a host function.
pub fn descriptor_to_sig(b: &BuiltinDescriptor) -> (sig: SymbolSig)
    requires
        can_sign(b@.param_types, b@.return_type),
    ensures
        is_signature(sig, b@.param_types, b@.return_type),
{
    signature_for(&b.param_types, &b.return_type)
}

/// A signature can be made for every host function.
#[verifier::rlimit(50)]
pub proof fn builtins_can_be_signed()
    ensures
        forall|i: int|
            0 <= i < builtin_table().len() ==> can_sign(
                (#[trigger] builtin_table()[i]).param_types,
                builtin_table()[i].return_type,
            ),
{
}

/// The symbols of all host functions with their signatures, in order.
pub fn register_builtins() -> (r: Vec<BuiltinSymbol>)
    ensures
        r@.len() == builtin_table().len(),
        forall|i: int|
            0 <= i < r@.len() ==> (#[trigger] r@[i]).name@ == builtin_table()[i].name
                && is_signature(
                r@[i].sig,
                builtin_table()[i].param_types,
                builtin_table()[i].return_type,
            ),
{
    let table = builtins();
    let ghost all = views(table@);
    proof {
        builtins_can_be_signed();
    }
    let mut r: Vec<BuiltinSymbol> = Vec::new();
    for i in 0..table.len()
        invariant
            all == views(table@),
            forall|k: int|
                0 <= k < all.len() ==> can_sign(
                    (#[trigger] all[k]).param_types,
                    all[k].return_type,
                ),
            r@.len() == i,
            forall|k: int|
                0 <= k < i ==> (#[trigger] r@[k]).name@ == all[k].name && is_signature(
                    r@[k].sig,
                    all[k].param_types,
                    all[k].return_type,
                ),
    {
        assert(all[i as int] == table@[i as int]@);
        r.push(BuiltinSymbol { name: table[i].name.clone(), sig: descriptor_to_sig(&table[i]) });
    }
    r
}

// ---------------------------------------------------------------------------
// The names of the host functions
// ---------------------------------------------------------------------------

/// The place of a host function in the table, told by the length of its name
/// and the characters in which names of that length differ.
spec fn place_of(s: Seq<char>) -> int {
    if s.len() == 11 {
        0
    } else if s.len() == 14 {
        15
    } else if s.len() == 15 {
        if s[7] == 't' {
            1
        } else {
            13
        }
    } else if s.len() == 16 {
        if s[9] == 'g' {
            if s[13] == 'i' {
                2
            } else {
                3
            }
        } else if s[9] == 's' {
            if s[13] == 'i' {
                5
            } else {
                6
            }
        } else {
            12
        }
    } else if s.len() == 17 {
        if s[0] == '_' {
            9
        } else {
            10
        }
    } else if s.len() == 18 {
        if s[2] == 'n' {
            14
        } else {
            17
        }
    } else if s.len() == 19 {
        if s[9] == 'g' {
            4
        } else {
            7
        }
    } else if s.len() == 20 {
        11
    } else if s.len() == 21 {
        16
    } else if s.len() == 23 {
        if s[2] == 'f' {
            8
        } else {
            18
        }
    } else if s.len() == 28 {
        if s[21] == 'w' {
            20
        } else {
            21
        }
    } else if s.len() == 29 {
        19
    } else {
        -1
    }
}

/// Whether the place of a host function can be told from its name, and it
/// returns a handle or its name does not end like that of a view function.
spec fn told_apart(b: BuiltinV, i: int) -> bool {
    &&& b.name.len() > 0
    &&& place_of(b.name) == i
    &&& b.return_type == prim(PrimitiveType::I64) || b.name.last() != 'w'
}

proof fn places_from_0()
    ensures
        forall|i: int|
            0 <= i < 11 ==> told_apart(#[trigger] builtin_table()[i], i),
{
    reveal_strlit("$Blinc$text");
    reveal_strlit("$Blinc$text_int");
    reveal_strlit("__signal_get_i32");
    reveal_strlit("__signal_get_f64");
    reveal_strlit("__signal_get_string");
    reveal_strlit("__signal_set_i32");
    reveal_strlit("__signal_set_f64");
    reveal_strlit("__signal_set_string");
    reveal_strlit("__fsm_runtime_trigger__");
    reveal_strlit("__fsm_subscribe__");
    reveal_strlit("$Blinc$format_int");
    let t = builtin_table();
    assert(told_apart(t[0], 0));
    assert(told_apart(t[1], 1));
    assert(told_apart(t[2], 2));
    assert(told_apart(t[3], 3));
    assert(told_apart(t[4], 4));
    assert(told_apart(t[5], 5));
    assert(told_apart(t[6], 6));
    assert(told_apart(t[7], 7));
    assert(told_apart(t[8], 8));
    assert(told_apart(t[9], 9));
    assert(told_apart(t[10], 10));
}

proof fn places_from_11()
    ensures
        forall|i: int|
            11 <= i < 22 ==> told_apart(#[trigger] builtin_table()[i], i),
{
    reveal_strlit("$Blinc$string_concat");
    reveal_strlit("$Blinc$Text$view");
    reveal_strlit("$Blinc$Div$view");
    reveal_strlit("__new_child_list__");
    reveal_strlit("__push_child__");
    reveal_strlit("__new_style_overlay__");
    reveal_strlit("__set_overlay_bg__");
    reveal_strlit("__set_overlay_opacity__");
    reveal_strlit("__set_overlay_corner_radius__");
    reveal_strlit("__set_overlay_border_width__");
    reveal_strlit("__set_overlay_border_color__");
    let t = builtin_table();
    assert(told_apart(t[11], 11));
    assert(told_apart(t[12], 12));
    assert(told_apart(t[13], 13));
    assert(told_apart(t[14], 14));
    assert(told_apart(t[15], 15));
    assert(told_apart(t[16], 16));
    assert(told_apart(t[17], 17));
    assert(told_apart(t[18], 18));
    assert(told_apart(t[19], 19));
    assert(told_apart(t[20], 20));
    assert(told_apart(t[21], 21));
}

proof fn all_told_apart()
    ensures
        forall|i: int|
            0 <= i < builtin_table().len() ==> told_apart(#[trigger] builtin_table()[i], i),
{
    places_from_0();
    places_from_11();
    assert(builtin_table().len() == 22);
}

/// No two host functions have the same name.
pub proof fn builtin_names_are_distinct()
    ensures
        forall|i: int, j: int|
            0 <= i < j < builtin_table().len() ==> (#[trigger] builtin_table()[i]).name != (
            #[trigger] builtin_table()[j]).name,
{
    let t = builtin_table();
    all_told_apart();
    assert forall|i: int, j: int| 0 <= i < j < t.len() implies (#[trigger] t[i]).name != (
    #[trigger] t[j]).name by {
        assert(told_apart(t[i], i));
        assert(told_apart(t[j], j));
    }
}

/// The view function of every host widget returns a handle.
pub proof fn views_return_handles()
    ensures
        forall|i: int|
            0 <= i < builtin_table().len() && has_prefix(
                (#[trigger] builtin_table()[i]).name,
                "$Blinc$"@,
            ) && has_suffix(builtin_table()[i].name, "$view"@) ==> builtin_table()[i].return_type
                == prim(PrimitiveType::I64),
{
    let t = builtin_table();
    all_told_apart();
    reveal_strlit("$view");
    assert forall|i: int|
        0 <= i < t.len() && has_prefix((#[trigger] t[i]).name, "$Blinc$"@) && has_suffix(
            t[i].name,
            "$view"@,
        ) implies t[i].return_type == prim(PrimitiveType::I64) by {
        assert(told_apart(t[i], i));
        let name = t[i].name;
        assert(name.last() == name.skip(name.len() - 5)[4]);
    }
}

// ---------------------------------------------------------------------------
// Widgets and their functions agree
// ---------------------------------------------------------------------------

pub open spec fn prop_types(props: Seq<PropDefV>) -> Seq<TypeV> {
    Seq::new(props.len(), |i: int| props[i].ty)
}

/// Whether the host provides the view function of a widget, with a parameter
/// for each of its properties and a handle as its result.
pub open spec fn is_provided(d: ComponentDefinitionV) -> bool {
    exists|i: int|
        0 <= i < builtin_table().len() && (#[trigger] builtin_table()[i]).name == d.view_symbol
            && builtin_table()[i].param_types == prop_types(d.props)
            && builtin_table()[i].return_type == prim(PrimitiveType::I64)
}

/// The view functions of the layout widgets take what their widgets'
/// properties say.
pub proof fn layout_primitives_are_provided()
    ensures
        is_provided(div_component()),
        is_provided(text_component()),
{
    let t = builtin_table();
    assert(t[13].param_types =~= prop_types(div_component().props));
    assert(t[13].name == div_component().view_symbol);
    assert(t[12].param_types =~= prop_types(text_component().props));
    assert(t[12].name == text_component().view_symbol);
}

/// Whether the host provides a function with these types.
pub open spec fn provides(name: Seq<char>, params: Seq<TypeV>, result: TypeV) -> bool {
    exists|i: int|
        0 <= i < builtin_table().len() && (#[trigger] builtin_table()[i]).name == name
            && builtin_table()[i].param_types == params && builtin_table()[i].return_type == result
}

/// The host provides the accessors that signals are resolved to: for every
/// type that a signal can have, reading takes its name and returns a value,
/// and writing takes its name and a value.
pub proof fn signal_accessors_are_provided(ty: TypeV)
    ensures
        match getter_name(ty) {
            Some(f) => provides(f, seq![prim(PrimitiveType::String)], ty),
            None => true,
        },
        match setter_name(ty) {
            Some(f) => provides(
                f,
                seq![prim(PrimitiveType::String), ty],
                prim(PrimitiveType::Unit),
            ),
            None => true,
        },
{
    let t = builtin_table();
    let name = seq![prim(PrimitiveType::String)];
    let name_and_value = seq![prim(PrimitiveType::String), ty];
    match ty {
        TypeV::Primitive(PrimitiveType::I32) => {
            assert(t[2].param_types =~= name);
            assert(t[5].param_types =~= name_and_value);
        },
        TypeV::Primitive(PrimitiveType::F64) => {
            assert(t[3].param_types =~= name);
            assert(t[6].param_types =~= name_and_value);
        },
        TypeV::Primitive(PrimitiveType::String) => {
            assert(t[4].param_types =~= name);
            assert(t[7].param_types =~= name_and_value);
        },
        _ => {},
    }
}

/// The host provides the functions that machine calls, child lists and style
/// overlays are lowered to.
pub proof fn lowering_targets_are_provided()
    ensures
        ({
            let text = prim(PrimitiveType::String);
            let handle = prim(PrimitiveType::I64);
            let unit = prim(PrimitiveType::Unit);
            &&& provides("__fsm_runtime_trigger__"@, seq![text, text], unit)
            &&& provides("__fsm_subscribe__"@, seq![text, text, handle], unit)
            &&& provides("__new_child_list__"@, seq![], handle)
            &&& provides("__push_child__"@, seq![handle, handle], unit)
            &&& provides("__new_style_overlay__"@, seq![], handle)
        }),
{
    let t = builtin_table();
    let text = prim(PrimitiveType::String);
    let handle = prim(PrimitiveType::I64);
    assert(t[8].param_types =~= seq![text, text]);
    assert(t[9].param_types =~= seq![text, text, handle]);
    assert(t[14].param_types =~= seq![]);
    assert(t[15].param_types =~= seq![handle, handle]);
    assert(t[16].param_types =~= seq![]);
}

/// The host provides the setter of every styling property. It takes an overlay
/// and a value.
pub proof fn overlay_setters_are_provided(name: Seq<char>)
    requires
        overlay_setter(name) is Some,
    ensures
        provides(
            overlay_setter(name)->0,
            seq![prim(PrimitiveType::I64), prim(PrimitiveType::I64)],
            prim(PrimitiveType::Unit),
        ) || provides(
            overlay_setter(name)->0,
            seq![prim(PrimitiveType::I64), prim(PrimitiveType::F64)],
            prim(PrimitiveType::Unit),
        ),
{
    let t = builtin_table();
    let color = seq![prim(PrimitiveType::I64), prim(PrimitiveType::I64)];
    let number = seq![prim(PrimitiveType::I64), prim(PrimitiveType::F64)];
    assert(t[17].param_types =~= color);
    assert(t[18].param_types =~= number);
    assert(t[19].param_types =~= number);
    assert(t[20].param_types =~= number);
    assert(t[21].param_types =~= color);
}

} // verus!
