use rustic_gl::attributes::{
    build_chain, AttribDirective, Attribute, AttributeChain, AttributeTail, Element, LayoutError,
    Normalized, ScalarKind, MAX_ATTRIBUTES,
};
use std::mem::size_of;

fn f32_vector(components: u32) -> Element {
    Element::vector(ScalarKind::Float, components).unwrap()
}

#[test]
fn attribute_stride() {
    let elements = vec![f32_vector(3), Element::scalar(ScalarKind::Float)];
    let vf = build_chain(&elements).unwrap();
    let stride = vf.stride();
    assert_eq!(size_of::<f32>() * 4, stride as usize);
}

#[test]
fn supports_layouts_with_padding_on_the_end() {
    let elements = vec![
        Element::scalar(ScalarKind::Float),
        Element::scalar(ScalarKind::Short),
        Element::scalar(ScalarKind::Byte),
        Element::scalar(ScalarKind::Short),
    ];
    let vf = build_chain(&elements).unwrap();
    let stride = vf.stride();
    assert_eq!(4 + 2 + 1 + (1) + 2 + (2), stride as usize);
}

#[test]
fn supports_a_basic_vertex_format() {
    // imagine something like (vec3 pos, vec2 uv, vec4 color, vec3 normal)
    let elements = vec![
        f32_vector(3),
        f32_vector(2),
        Normalized(ScalarKind::UnsignedByte).element(4).unwrap(),
        Normalized(ScalarKind::Short).element(3).unwrap(),
    ];
    let vf = build_chain(&elements).unwrap();
    let stride = vf.stride();
    assert_eq!(3 * 4 + 2 * 4 + 1 * 4 + 3 * 2 + (2), stride as usize);

    let dirs = vf.declare(0);
    assert_eq!(dirs.len(), 4);
    assert_eq!(
        dirs[0],
        AttribDirective {
            index: 0,
            components: 3,
            kind: ScalarKind::Float,
            normalized: false,
            stride,
            offset: 0,
        },
        "got state: {:?}",
        dirs[0]
    );
    assert_eq!(
        dirs[1],
        AttribDirective {
            index: 1,
            components: 2,
            kind: ScalarKind::Float,
            normalized: false,
            stride,
            offset: 12,
        },
        "got state: {:?}",
        dirs[1]
    );
    assert_eq!(
        dirs[2],
        AttribDirective {
            index: 2,
            components: 4,
            kind: ScalarKind::UnsignedByte,
            normalized: true,
            stride,
            offset: 20,
        },
        "got state: {:?}",
        dirs[2]
    );
    assert_eq!(
        dirs[3],
        AttribDirective {
            index: 3,
            components: 3,
            kind: ScalarKind::Short,
            normalized: true,
            stride,
            offset: 24,
        },
        "got state: {:?}",
        dirs[3]
    );
}

#[test]
fn two_float_attributes_have_offsets_zero_and_twelve() {
    let elements = vec![f32_vector(3), Element::scalar(ScalarKind::Float)];
    let vf = build_chain(&elements).unwrap();
    assert_eq!(vf.stride(), 16);
    let dirs = vf.declare(0);
    let offsets: Vec<usize> = dirs.iter().map(|d| d.offset).collect();
    assert_eq!(offsets, vec![0, 12]);
}

#[test]
fn mid_chain_padding_is_inserted_before_misaligned_short() {
    let elements = vec![
        Element::scalar(ScalarKind::Float),
        Element::scalar(ScalarKind::Short),
        Element::scalar(ScalarKind::Byte),
        Element::scalar(ScalarKind::Short),
    ];
    let vf = build_chain(&elements).unwrap();
    assert_eq!(vf.stride(), 12);
    let dirs = vf.declare(0);
    let offsets: Vec<usize> = dirs.iter().map(|d| d.offset).collect();
    assert_eq!(offsets, vec![0, 4, 6, 8]);
}

#[test]
fn stride_and_declare_are_deterministic() {
    let elements = vec![
        f32_vector(3),
        Normalized(ScalarKind::UnsignedByte).element(4).unwrap(),
        Element::scalar(ScalarKind::Short),
    ];
    let vf = build_chain(&elements).unwrap();
    assert_eq!(vf.stride(), vf.stride());
    assert_eq!(vf.declare(0), vf.declare(0));
}

#[test]
fn declare_preserves_caller_order() {
    let elements = vec![
        Element::scalar(ScalarKind::Float),
        Element::scalar(ScalarKind::UnsignedByte),
        Element::scalar(ScalarKind::Int),
    ];
    let vf = build_chain(&elements).unwrap();
    let dirs = vf.declare(0);
    assert_eq!(dirs.len(), 3);
    assert_eq!(dirs[0].index, 0);
    assert_eq!(dirs[0].kind, ScalarKind::Float);
    assert_eq!(dirs[1].index, 1);
    assert_eq!(dirs[1].kind, ScalarKind::UnsignedByte);
    assert_eq!(dirs[2].index, 2);
    assert_eq!(dirs[2].kind, ScalarKind::Int);
}

#[test]
fn declare_starts_at_the_requested_base_index() {
    let elements = vec![Element::scalar(ScalarKind::Float), Element::scalar(ScalarKind::Float)];
    let vf = build_chain(&elements).unwrap();
    let dirs = vf.declare(2);
    assert_eq!(dirs[0].index, 2);
    assert_eq!(dirs[1].index, 3);
}

#[test]
fn empty_chain_has_zero_stride_and_no_directives() {
    let elements: Vec<Element> = vec![];
    let vf = build_chain(&elements).unwrap();
    assert_eq!(vf.stride(), 0);
    assert_eq!(vf.declare(0).len(), 0);
}

#[test]
fn stride_is_a_multiple_of_the_largest_alignment() {
    let cases: Vec<Vec<Element>> = vec![
        vec![Element::scalar(ScalarKind::Byte)],
        vec![Element::scalar(ScalarKind::Byte), Element::scalar(ScalarKind::Double)],
        vec![f32_vector(3), Element::scalar(ScalarKind::Byte)],
        vec![Element::scalar(ScalarKind::Short), Element::scalar(ScalarKind::Byte)],
    ];
    for elements in cases {
        let max_alignment =
            elements.iter().map(|e| e.alignment()).max().unwrap();
        let vf = build_chain(&elements).unwrap();
        assert_eq!(vf.stride() as usize % max_alignment, 0);
    }
}

#[test]
fn every_offset_is_aligned_and_inside_the_record() {
    let elements = vec![
        Element::scalar(ScalarKind::Byte),
        Element::scalar(ScalarKind::Double),
        Element::scalar(ScalarKind::Short),
        f32_vector(3),
        Element::scalar(ScalarKind::Bool),
    ];
    let vf = build_chain(&elements).unwrap();
    let stride = vf.stride() as usize;
    let dirs = vf.declare(0);
    for (d, e) in dirs.iter().zip(elements.iter()) {
        assert_eq!(d.offset % e.alignment(), 0);
        assert!(d.offset + e.byte_size() * e.components() as usize <= stride);
    }
}

#[test]
fn chains_longer_than_the_slot_count_are_rejected() {
    let elements = vec![Element::scalar(ScalarKind::Byte); MAX_ATTRIBUTES + 1];
    match build_chain(&elements) {
        Err(LayoutError::TooManyAttributes) => {}
        other => panic!("got {:?}", other.map(|_| ()).err()),
    }
    let elements = vec![Element::scalar(ScalarKind::Byte); MAX_ATTRIBUTES];
    assert!(build_chain(&elements).is_ok());
}

#[test]
fn normalized_floats_and_bools_are_rejected() {
    assert_eq!(
        Element::normalized_vector(ScalarKind::Float, 3),
        Err(LayoutError::NotNormalizable)
    );
    assert_eq!(
        Element::normalized_vector(ScalarKind::Double, 1),
        Err(LayoutError::NotNormalizable)
    );
    assert_eq!(Normalized(ScalarKind::Bool).element(2), Err(LayoutError::NotNormalizable));
    assert!(Normalized(ScalarKind::Short).element(2).is_ok());
}

#[test]
fn component_counts_outside_one_to_four_are_rejected() {
    assert_eq!(Element::vector(ScalarKind::Byte, 0), Err(LayoutError::BadComponentCount));
    assert_eq!(Element::vector(ScalarKind::Byte, 5), Err(LayoutError::BadComponentCount));
    assert_eq!(
        Element::normalized_vector(ScalarKind::Byte, 0),
        Err(LayoutError::BadComponentCount)
    );
    assert!(Element::vector(ScalarKind::Byte, 4).is_ok());
}

#[test]
fn element_descriptors_resolve_their_metadata() {
    let e = Normalized(ScalarKind::UnsignedShort).element(3).unwrap();
    assert_eq!(e.byte_size(), 2);
    assert_eq!(e.alignment(), 2);
    assert_eq!(e.components(), 3);
    assert!(e.normalized());
    assert_eq!(e.native_kind(), ScalarKind::UnsignedShort);

    let raw = Element::scalar(ScalarKind::Double);
    assert_eq!(raw.byte_size(), 8);
    assert_eq!(raw.alignment(), 8);
    assert_eq!(raw.components(), 1);
    assert!(!raw.normalized());
    assert_eq!(raw.native_kind(), ScalarKind::Double);
}

#[test]
fn tail_rounds_the_total_up_to_the_max_alignment() {
    let tail = AttributeTail;
    assert_eq!(tail.padding(13), 0);
    assert_eq!(tail.stride(10, 4), 12);
    assert_eq!(tail.stride(12, 4), 12);
    assert_eq!(tail.stride(0, 8), 0);
}

#[test]
fn attribute_padding_reaches_the_element_alignment() {
    let attr = Attribute {
        element: Element::scalar(ScalarKind::Float),
        rest: Box::new(AttributeChain::Tail(AttributeTail)),
    };
    assert_eq!(attr.padding(0), 0);
    assert_eq!(attr.padding(1), 3);
    assert_eq!(attr.padding(4), 0);
    assert_eq!(attr.padding(6), 2);
    assert_eq!(attr.stride(), 4);
}
