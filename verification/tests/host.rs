//! Host functions: strings in transit, the scene, symbols and overlays.

use blinc_dsl_core::abi::{
    builtins, descriptor_to_sig, is_signable, register_builtins, type_to_native, type_to_tag,
    NativeType, TypeTag, NO_FLAGS,
};
use blinc_dsl_core::ast::{PrimitiveType, Type};
use blinc_dsl_core::host::{
    blinc_format_int, blinc_string_alloc, blinc_string_concat, blinc_string_decode, blinc_text,
    blinc_text_int, decode_signal_name, decoded_class_names, machine_and_path,
    materialize_children, push_op, signal_to_read, take_scene_ops, text_to_write, trigger_event,
    DslOp, SceneBuffer,
};
use blinc_dsl_core::overlay::{Brush, CornerRadius, RenderProps, RenderPropsOverlay};
use blinc_dsl_core::stylesheet::char_is_space;
use blinc_dsl_core::text::{
    append_decimal, contains_name, ends_with, format_signed, from_chars, same, starts_with,
    strip_both, to_chars,
};

fn base_props() -> RenderProps {
    let zero: u32 = (0.0f32).to_bits();
    RenderProps {
        background: None,
        opacity: (1.0f32).to_bits(),
        border_radius: CornerRadius {
            top_left: zero,
            top_right: zero,
            bottom_right: zero,
            bottom_left: zero,
        },
        border_radius_explicit: false,
        border_width: zero,
        border_color: None,
    }
}

#[test]
fn a_frame_is_the_length_and_the_bytes() {
    assert_eq!(blinc_string_alloc("hé"), vec![3, 0, 0, 0, 0x68, 0xC3, 0xA9]);
    assert_eq!(blinc_string_alloc(""), vec![0, 0, 0, 0]);
}

#[test]
fn framed_texts_read_back() {
    let long: String = "x".repeat(70000);
    for s in ["", "a", "Hello, Blinc DSL!", "grüße 🎨", long.as_str()] {
        let b = blinc_string_alloc(s);
        assert_eq!(blinc_string_decode(Some(&b)), s);
    }
}

#[test]
fn bytes_that_are_no_text_have_a_stand_in() {
    let b: Vec<u8> = vec![2, 0, 0, 0, 0xFF, 0xFE];
    assert_eq!(blinc_string_decode(Some(&b)), "<invalid utf-8>");
    assert_eq!(decode_signal_name(Some(&b)), None);
    assert_eq!(blinc_string_decode(None), "");
    assert_eq!(decode_signal_name(None), None);
}

#[test]
fn a_frame_may_be_followed_by_other_bytes() {
    let b: Vec<u8> = vec![1, 0, 0, 0, b'a', b'b'];
    assert_eq!(blinc_string_decode(Some(&b)), "a");
}

#[test]
fn names_lose_their_quotes() {
    let quoted = blinc_string_alloc("\"count\"");
    assert_eq!(decode_signal_name(Some(&quoted)).as_deref(), Some("count"));
    let plain = blinc_string_alloc("count");
    assert_eq!(decode_signal_name(Some(&plain)).as_deref(), Some("count"));
    let one = blinc_string_alloc("\"");
    assert_eq!(decode_signal_name(Some(&one)).as_deref(), Some("\""));
}

#[test]
fn signals_are_read_and_written_by_name() {
    let name = blinc_string_alloc("\"count\"");
    let broken: Vec<u8> = vec![1, 0, 0, 0, 0xFF];
    assert_eq!(signal_to_read(Some(&name)).as_deref(), Some("count"));
    assert_eq!(signal_to_read(Some(&broken)).as_deref(), Some("<invalid utf-8>"));
    assert_eq!(signal_to_read(None), None);
    assert_eq!(text_to_write(Some(&name)), "count");
    assert_eq!(text_to_write(Some(&broken)), "");
    assert_eq!(text_to_write(None), "");
}

#[test]
fn machine_calls_need_both_names() {
    let fsm = blinc_string_alloc("Toggle");
    let path = blinc_string_alloc("\"Off.Click\"");
    assert_eq!(
        machine_and_path(Some(&fsm), Some(&path)),
        Some(("Toggle".to_string(), "Off.Click".to_string()))
    );
    assert_eq!(machine_and_path(None, Some(&path)), None);
    assert_eq!(machine_and_path(Some(&fsm), None), None);
}

#[test]
fn null_children_are_left_out() {
    assert_eq!(materialize_children(Some(&vec![3, 0, 5, 0])), vec![3, 5]);
    assert!(materialize_children(None).is_empty());
}

#[test]
fn round_trip_text_view() {
    let mut scene = SceneBuffer::new();
    let b = blinc_string_alloc("Hello, Blinc DSL!");
    blinc_text(&mut scene, Some(&b));
    let ops = take_scene_ops(&mut scene);
    assert_eq!(ops, vec![DslOp::Text("Hello, Blinc DSL!".to_string())]);
}

#[test]
fn round_trip_text_mixed_args() {
    let mut scene = SceneBuffer::new();
    let b = blinc_string_alloc("\"answer:\"");
    blinc_text(&mut scene, Some(&b));
    blinc_text_int(&mut scene, 42);
    let ops = take_scene_ops(&mut scene);
    assert_eq!(ops, vec![DslOp::Text("answer:".to_string()), DslOp::IntText(42)]);
}

#[test]
fn the_scene_is_empty_after_it_was_taken() {
    let mut scene = SceneBuffer::new();
    blinc_text(&mut scene, None);
    assert!(take_scene_ops(&mut scene).is_empty());
    push_op(&mut scene, DslOp::IntText(1));
    assert_eq!(take_scene_ops(&mut scene).len(), 1);
    assert!(take_scene_ops(&mut scene).is_empty());
}

#[test]
fn integers_are_formatted_in_decimal() {
    for n in [0, 7, -1, 42, i32::MAX, i32::MIN] {
        let b = blinc_format_int(n);
        assert_eq!(blinc_string_decode(Some(&b)), format!("{n}"));
    }
    assert_eq!(format_signed(-120), "-120");
    let mut s: String = "n".to_string();
    append_decimal(&mut s, 18446744073709551615);
    assert_eq!(s, "n18446744073709551615");
}

#[test]
fn texts_are_concatenated() {
    let a = blinc_string_alloc("hi ");
    let b = blinc_format_int(42);
    let c = blinc_string_concat(Some(&a), Some(&b));
    assert_eq!(blinc_string_decode(Some(&c)), "hi 42");
    let d = blinc_string_concat(None, Some(&b));
    assert_eq!(blinc_string_decode(Some(&d)), "42");
}

#[test]
fn class_names_are_words() {
    let b = blinc_string_alloc("  card\tprimary \n wide\u{3000}tall");
    assert_eq!(decoded_class_names(Some(&b)), vec!["card", "primary", "wide", "tall"]);
    let blank = blinc_string_alloc(" \n ");
    assert!(decoded_class_names(Some(&blank)).is_empty());
    assert!(decoded_class_names(None).is_empty());
}

#[test]
fn a_trigger_fires_only_in_its_state() {
    let off: String = "Off".to_string();
    assert_eq!(trigger_event("Off.Click", Some(&off)).as_deref(), Some("Click"));
    assert_eq!(trigger_event(" Off . Click ", Some(&off)).as_deref(), Some("Click"));
    assert_eq!(trigger_event("On.Click", Some(&off)), None);
    assert_eq!(trigger_event("Off.Click", None), None);
    assert_eq!(trigger_event("Click", Some(&off)), None);
    assert_eq!(trigger_event("Off.A.B", Some(&off)).as_deref(), Some("A.B"));
}

#[test]
fn white_space_is_that_of_unicode() {
    for n in 0u32..=0x10FFFF {
        if let Some(c) = char::from_u32(n) {
            assert_eq!(char_is_space(c), c.is_whitespace(), "{n:#x}");
        }
    }
}

#[test]
fn text_helpers_work_on_characters() {
    assert_eq!(blinc_dsl_core::text::concat("grün", "!"), "grün!");
    assert!(same(&"a".to_string(), "a") && !same(&"a".to_string(), "b"));
    assert!(starts_with("$Blinc$Div", "$Blinc$") && !starts_with("$B", "$Blinc$"));
    assert!(ends_with("Card$view", "$view") && !ends_with("view", "$view"));
    assert_eq!(strip_both("State<i32>", "State<", ">").as_deref(), Some("i32"));
    assert_eq!(strip_both("i32", "State<", ">"), None);
    let v = to_chars("grün");
    assert_eq!(v.len(), 4);
    assert_eq!(from_chars(&v, 1, 3), "rü");
    let names: Vec<String> = vec!["a".to_string(), "b".to_string()];
    assert!(contains_name(&names, &"b".to_string()));
    assert!(!contains_name(&names, &"c".to_string()));
}

#[test]
fn types_map_to_tags_and_native_types() {
    let of = |p: PrimitiveType| -> Type { Type::Primitive(p) };
    assert_eq!(type_to_tag(&of(PrimitiveType::Unit)), TypeTag::Void);
    assert_eq!(type_to_tag(&of(PrimitiveType::String)), TypeTag::String);
    assert_eq!(type_to_tag(&of(PrimitiveType::I32)), TypeTag::I32);
    assert_eq!(type_to_tag(&of(PrimitiveType::I64)), TypeTag::I64);
    assert_eq!(type_to_tag(&of(PrimitiveType::F64)), TypeTag::F64);
    assert_eq!(type_to_native(&of(PrimitiveType::String)), Ok(NativeType::Ptr));
    assert_eq!(type_to_native(&of(PrimitiveType::F64)), Ok(NativeType::F64));
    let other = Type::Other(1);
    assert_eq!(type_to_native(&other), Err(&other));
    let unit = of(PrimitiveType::Unit);
    assert!(is_signable(&vec![of(PrimitiveType::I32)], &unit));
    assert!(!is_signable(&vec![Type::Other(1)], &unit) && !is_signable(&vec![], &other));
    assert!(!is_signable(&(0..17).map(|_| of(PrimitiveType::I32)).collect(), &unit));
}

#[test]
fn every_builtin_has_a_signature() {
    let table = builtins();
    assert_eq!(table.len(), 22);
    let symbols = register_builtins();
    assert_eq!(symbols.len(), table.len());
    for (b, s) in table.iter().zip(symbols.iter()) {
        assert_eq!(b.name, s.name);
        assert_eq!(descriptor_to_sig(b), s.sig);
        assert_eq!(s.sig.param_count as usize, b.param_types.len());
        assert_eq!(s.sig.flags, NO_FLAGS);
        assert!(s.sig.params[b.param_types.len()..].iter().all(|t| *t == TypeTag::Void));
    }
    let div = symbols.iter().find(|s| s.name == "$Blinc$Div$view").expect("Div");
    assert_eq!(
        div.sig.params[0..4],
        [TypeTag::I64, TypeTag::I64, TypeTag::String, TypeTag::I64]
    );
    let label = symbols.iter().find(|s| s.name == "$Blinc$Text$view").expect("Text");
    assert_eq!((label.sig.param_count, label.sig.params[0]), (1, TypeTag::String));
}

#[test]
fn styled_wrapper_overlays_specified_fields_only() {
    let base = base_props();
    let mut overlay = RenderPropsOverlay::default();
    overlay.opacity = Some((0.5f32).to_bits());
    overlay.corner_radius = Some((8.0f32).to_bits());
    let mut merged = base;
    overlay.apply_to(&mut merged);
    assert_eq!(f32::from_bits(merged.opacity), 0.5);
    let eight: u32 = (8.0f32).to_bits();
    assert_eq!(
        merged.border_radius,
        CornerRadius { top_left: eight, top_right: eight, bottom_right: eight, bottom_left: eight }
    );
    assert!(merged.border_radius_explicit);
    assert_eq!(merged.background.is_some(), base.background.is_some());
    assert_eq!(merged.border_width, base.border_width);
    assert_eq!(merged.border_color, base.border_color);
}

#[test]
fn styled_wrapper_default_overlay_is_noop() {
    let base = base_props();
    let mut merged = base;
    RenderPropsOverlay::default().apply_to(&mut merged);
    assert_eq!(merged, base);
}

#[test]
fn colours_are_set_by_their_codes() {
    let mut overlay = RenderPropsOverlay::default();
    overlay.set_background(16711680);
    overlay.set_border_color(255);
    let mut props = base_props();
    overlay.apply_to(&mut props);
    assert_eq!(props.background, Some(Brush::Solid(0xFF0000)));
    assert_eq!(props.border_color, Some(255));
}

#[test]
fn host_functions_have_names_of_their_own() {
    let table = builtins();
    assert_eq!(table.len(), 22);
    let mut views: usize = 0;
    for i in 0..table.len() {
        for j in 0..i {
            assert_ne!(table[i].name, table[j].name);
        }
        if table[i].name.starts_with("$Blinc$") && table[i].name.ends_with("$view") {
            assert_eq!(table[i].return_type, Type::Primitive(PrimitiveType::I64));
            views += 1;
        }
    }
    assert_eq!(views, 2);
}
