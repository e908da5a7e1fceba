//! Planning the byte layout of interleaved vertex attributes.
//!
//! An ordered chain of attribute descriptions is laid out left to right:
//! each attribute is padded to its own alignment, and the total stride is
//! padded to the largest alignment in the chain.  `stride` computes the
//! total record size and `declare` replays the same arithmetic to produce
//! one description directive per attribute, so the declared stride and the
//! per-attribute offsets always come from a single recurrence.

use vstd::arithmetic::div_mod::{
    lemma_add_mod_noop, lemma_mod_division_less_than_divisor, lemma_mod_self_0, lemma_small_mod,
};
use vstd::prelude::*;

verus! {

/// Number of attribute slots a chain may describe at most.
pub const MAX_ATTRIBUTES: usize = 16;

/// Tag for the scalar storage type of one attribute component.
#[derive(Clone, Copy, Debug, PartialEq, Eq, Structural)]
pub enum ScalarKind {
    Byte,
    Short,
    Int,
    UnsignedByte,
    UnsignedShort,
    UnsignedInt,
    Float,
    Double,
    Bool,
}

impl ScalarKind {
    /// Size in bytes of one component of this kind.
    pub open spec fn spec_byte_size(self) -> int {
        match self {
            ScalarKind::Byte => 1,
            ScalarKind::Short => 2,
            ScalarKind::Int => 4,
            ScalarKind::UnsignedByte => 1,
            ScalarKind::UnsignedShort => 2,
            ScalarKind::UnsignedInt => 4,
            ScalarKind::Float => 4,
            ScalarKind::Double => 8,
            ScalarKind::Bool => 1,
        }
    }

    /// Whether values of this kind may be marked as normalized fixed-point.
    /// Only the integer kinds can be.
    pub open spec fn spec_normalizable(self) -> bool {
        match self {
            ScalarKind::Byte => true,
            ScalarKind::Short => true,
            ScalarKind::Int => true,
            ScalarKind::UnsignedByte => true,
            ScalarKind::UnsignedShort => true,
            ScalarKind::UnsignedInt => true,
            ScalarKind::Float => false,
            ScalarKind::Double => false,
            ScalarKind::Bool => false,
        }
    }

    /// Size in bytes of one component of this kind.
    pub fn byte_size(self) -> (r: usize)
        ensures
            r == self.spec_byte_size(),
    {
        match self {
            ScalarKind::Byte => 1,
            ScalarKind::Short => 2,
            ScalarKind::Int => 4,
            ScalarKind::UnsignedByte => 1,
            ScalarKind::UnsignedShort => 2,
            ScalarKind::UnsignedInt => 4,
            ScalarKind::Float => 4,
            ScalarKind::Double => 8,
            ScalarKind::Bool => 1,
        }
    }

    /// Whether values of this kind may be marked as normalized fixed-point.
    pub fn normalizable(self) -> (r: bool)
        ensures
            r == self.spec_normalizable(),
    {
        match self {
            ScalarKind::Byte => true,
            ScalarKind::Short => true,
            ScalarKind::Int => true,
            ScalarKind::UnsignedByte => true,
            ScalarKind::UnsignedShort => true,
            ScalarKind::UnsignedInt => true,
            ScalarKind::Float => false,
            ScalarKind::Double => false,
            ScalarKind::Bool => false,
        }
    }
}

/// A configuration mistake detected while describing a layout.
#[derive(Clone, Copy, Debug, PartialEq, Eq, Structural)]
pub enum LayoutError {
    /// The element list asks for more attribute slots than [`MAX_ATTRIBUTES`].
    TooManyAttributes,
    /// A normalized element was requested over a kind that has no
    /// fixed-point interpretation (a float or a boolean).
    NotNormalizable,
    /// A component count outside 1..=4 was requested.
    BadComponentCount,
}

/// The binary shape of one attribute element: a scalar or a short vector
/// of one scalar kind.
#[derive(Clone, Copy, Debug, PartialEq, Eq, Structural)]
pub struct Element {
    /// Tag of the scalar storage type.
    pub kind: ScalarKind,
    /// Size in bytes of one component.
    pub byte_size: usize,
    /// Required byte alignment of the element's starting offset.
    pub alignment: usize,
    /// How many components the element has, between 1 and 4.
    pub components: u32,
    /// Whether integer values are read as fixed-point in [0, 1] or [-1, 1].
    pub normalized: bool,
}

impl Element {
    /// Validity of an element description: the size matches the kind, the
    /// alignment is meaningful, the component count is 1..=4, and only
    /// integer kinds are normalized.
    pub open spec fn wf(self) -> bool {
        &&& self.byte_size == self.kind.spec_byte_size()
        &&& 1 <= self.alignment <= 8
        &&& 1 <= self.components <= 4
        &&& (self.normalized ==> self.kind.spec_normalizable())
    }

    /// A single raw scalar of the given kind.
    pub fn scalar(kind: ScalarKind) -> (r: Element)
        ensures
            r.wf(),
            r.kind == kind,
            r.byte_size == kind.spec_byte_size(),
            r.alignment == kind.spec_byte_size(),
            r.components == 1,
            !r.normalized,
    {
        let size = kind.byte_size();
        Element { kind, byte_size: size, alignment: size, components: 1, normalized: false }
    }

    /// A raw vector of `components` values of the given kind.
    ///
    /// Fails exactly when the component count is outside 1..=4.
    pub fn vector(kind: ScalarKind, components: u32) -> (r: Result<Element, LayoutError>)
        ensures
            r is Ok <==> 1 <= components <= 4,
            r matches Ok(e) ==> {
                &&& e.wf()
                &&& e.kind == kind
                &&& e.byte_size == kind.spec_byte_size()
                &&& e.alignment == kind.spec_byte_size()
                &&& e.components == components
                &&& !e.normalized
            },
            !(1 <= components <= 4) ==> r == Result::<Element, LayoutError>::Err(
                LayoutError::BadComponentCount,
            ),
    {
        if components < 1 || components > 4 {
            return Err(LayoutError::BadComponentCount);
        }
        let size = kind.byte_size();
        Ok(Element { kind, byte_size: size, alignment: size, components, normalized: false })
    }

    /// A normalized fixed-point vector of `components` values of the given
    /// integer kind.
    ///
    /// Fails with `NotNormalizable` when the kind is a float or a boolean,
    /// and with `BadComponentCount` when the component count is outside
    /// 1..=4.
    pub fn normalized_vector(kind: ScalarKind, components: u32) -> (r: Result<
        Element,
        LayoutError,
    >)
        ensures
            r is Ok <==> kind.spec_normalizable() && 1 <= components <= 4,
            r matches Ok(e) ==> {
                &&& e.wf()
                &&& e.kind == kind
                &&& e.byte_size == kind.spec_byte_size()
                &&& e.alignment == kind.spec_byte_size()
                &&& e.components == components
                &&& e.normalized
            },
            !kind.spec_normalizable() ==> r == Result::<Element, LayoutError>::Err(
                LayoutError::NotNormalizable,
            ),
            kind.spec_normalizable() && !(1 <= components <= 4) ==> r == Result::<
                Element,
                LayoutError,
            >::Err(LayoutError::BadComponentCount),
    {
        if !kind.normalizable() {
            return Err(LayoutError::NotNormalizable);
        }
        if components < 1 || components > 4 {
            return Err(LayoutError::BadComponentCount);
        }
        let size = kind.byte_size();
        Ok(Element { kind, byte_size: size, alignment: size, components, normalized: true })
    }
}

impl Element {
    /// Size in bytes of one component's storage unit.
    pub fn byte_size(&self) -> (r: usize)
        ensures
            r == self.byte_size,
    {
        self.byte_size
    }

    /// Byte alignment required for this element's starting offset.
    pub fn alignment(&self) -> (r: usize)
        ensures
            r == self.alignment,
    {
        self.alignment
    }

    /// How many components the element has.
    pub fn components(&self) -> (r: u32)
        ensures
            r == self.components,
    {
        self.components
    }

    /// Whether integer values are read as normalized fixed-point.
    pub fn normalized(&self) -> (r: bool)
        ensures
            r == self.normalized,
    {
        self.normalized
    }

    /// Tag of the scalar storage type.
    pub fn native_kind(&self) -> (r: ScalarKind)
        ensures
            r == self.kind,
    {
        self.kind
    }
}

/// Marker for a scalar kind whose integer values are read as normalized
/// fixed-point.
#[derive(Clone, Copy, Debug, PartialEq, Eq, Structural)]
pub struct Normalized(pub ScalarKind);

impl Normalized {
    /// The element describing `components` normalized values of the wrapped
    /// kind; same shape as the raw kind, with the normalized flag set.
    pub fn element(self, components: u32) -> (r: Result<Element, LayoutError>)
        ensures
            r is Ok <==> self.0.spec_normalizable() && 1 <= components <= 4,
            r matches Ok(e) ==> {
                &&& e.wf()
                &&& e.kind == self.0
                &&& e.byte_size == self.0.spec_byte_size()
                &&& e.alignment == self.0.spec_byte_size()
                &&& e.components == components
                &&& e.normalized
            },
            !self.0.spec_normalizable() ==> r == Result::<Element, LayoutError>::Err(
                LayoutError::NotNormalizable,
            ),
            self.0.spec_normalizable() && !(1 <= components <= 4) ==> r == Result::<
                Element,
                LayoutError,
            >::Err(LayoutError::BadComponentCount),
    {
        Element::normalized_vector(self.0, components)
    }
}

/// Validity of every element of a chain.
pub open spec fn wf_elements(elems: Seq<Element>) -> bool {
    forall|i: int| 0 <= i < elems.len() ==> (#[trigger] elems[i]).wf()
}

/// Bytes one element occupies: component size times component count.
pub open spec fn spec_elem_bytes(e: Element) -> int {
    e.byte_size * e.components
}

/// The larger of two values.
pub open spec fn spec_max(a: int, b: int) -> int {
    if a >= b {
        a
    } else {
        b
    }
}

/// Minimum non-negative byte count to add to `offset` so that it becomes a
/// multiple of `alignment`.
pub open spec fn spec_padding(offset: int, alignment: int) -> int {
    (alignment - offset % alignment) % alignment
}

/// The stride recurrence: pad the running total to each element's
/// alignment, add the element's bytes, and finally pad the total to the
/// largest alignment seen.
pub open spec fn spec_stride(elems: Seq<Element>, total: int, max_alignment: int) -> int
    decreases elems.len(),
{
    if elems.len() == 0 {
        total + spec_padding(total, max_alignment)
    } else {
        let e = elems[0];
        let aligned = total + spec_padding(total, e.alignment as int);
        spec_stride(
            elems.drop_first(),
            aligned + spec_elem_bytes(e),
            spec_max(e.alignment as int, max_alignment),
        )
    }
}

/// Byte offset assigned to each element when the first byte of the record
/// is at `offset`; the same recurrence as [`spec_stride`].
pub open spec fn spec_offsets(elems: Seq<Element>, offset: int) -> Seq<int>
    decreases elems.len(),
{
    if elems.len() == 0 {
        Seq::empty()
    } else {
        let e = elems[0];
        let aligned = offset + spec_padding(offset, e.alignment as int);
        seq![aligned] + spec_offsets(elems.drop_first(), aligned + spec_elem_bytes(e))
    }
}

/// The largest alignment among the elements, and at least `seed`.
pub open spec fn spec_max_alignment(elems: Seq<Element>, seed: int) -> int
    decreases elems.len(),
{
    if elems.len() == 0 {
        seed
    } else {
        spec_max_alignment(elems.drop_first(), spec_max(elems[0].alignment as int, seed))
    }
}

/// The recurrence assigns exactly one offset per element.
proof fn lemma_offsets_len(elems: Seq<Element>, offset: int)
    ensures
        spec_offsets(elems, offset).len() == elems.len(),
    decreases elems.len(),
{
    if elems.len() > 0 {
        let e = elems[0];
        lemma_offsets_len(
            elems.drop_first(),
            offset + spec_padding(offset, e.alignment as int) + spec_elem_bytes(e),
        );
    }
}

/// Padding reaches the next multiple: it is less than the alignment, and
/// the padded offset is divisible by it.
proof fn lemma_pad_mod(t: int, m: int)
    requires
        t >= 0,
        m >= 1,
    ensures
        0 <= spec_padding(t, m) < m,
        (t + spec_padding(t, m)) % m == 0,
{
    let r = t % m;
    lemma_mod_division_less_than_divisor(t, m);
    if r == 0 {
        lemma_mod_self_0(m);
        assert(spec_padding(t, m) == 0);
    } else {
        lemma_small_mod((m - r) as nat, m as nat);
        assert(spec_padding(t, m) == m - r);
        lemma_add_mod_noop(t, m - r, m);
        lemma_mod_self_0(m);
        assert((t + (m - r)) % m == (r + (m - r)) % m);
    }
}

/// Terminal marker of an attribute chain.  It contributes no element; it
/// only rounds the accumulated total up to the chain's largest alignment.
pub struct AttributeTail;

/// One non-terminal link of an attribute chain: one element and the rest
/// of the chain, which the link exclusively owns.
pub struct Attribute {
    /// The element described at this link's position.
    pub element: Element,
    /// The continuation of the chain.
    pub rest: Box<AttributeChain>,
}

/// An ordered chain of attribute descriptions, possibly empty.
pub enum AttributeChain {
    /// A link followed by the rest of the chain.
    Node(Attribute),
    /// The terminal marker.
    Tail(AttributeTail),
}

impl AttributeTail {
    /// The terminal marker needs no padding.
    pub fn padding(&self, offset: usize) -> (r: usize)
        ensures
            r == 0,
    {
        let _ = offset;
        0
    }

    /// Final stride: the accumulated total rounded up to the largest
    /// alignment seen along the chain.
    pub fn stride(&self, total: i32, max_alignment: i32) -> (r: i32)
        requires
            0 <= total,
            1 <= max_alignment <= 8,
            total + 8 <= i32::MAX,
        ensures
            r == spec_stride(Seq::<Element>::empty(), total as int, max_alignment as int),
            r as int % max_alignment as int == 0,
    {
        proof {
            lemma_pad_mod(total as int, max_alignment as int);
        }
        total + (max_alignment - total % max_alignment) % max_alignment
    }
}

impl Attribute {
    /// The elements of the chain rooted at this link, in order.
    pub open spec fn elements(self) -> Seq<Element> {
        seq![self.element] + self.rest.elements()
    }

    /// Validity of the chain rooted at this link: every element valid and
    /// no more than [`MAX_ATTRIBUTES`] of them.
    pub open spec fn wf(self) -> bool {
        &&& wf_elements(self.elements())
        &&& self.elements().len() <= MAX_ATTRIBUTES
    }

    /// Minimum bytes to add to `offset` so this link's element starts at
    /// an offset satisfying its alignment.
    pub fn padding(&self, offset: usize) -> (r: usize)
        requires
            self.element.alignment >= 1,
        ensures
            r == spec_padding(offset as int, self.element.alignment as int),
            r < self.element.alignment,
    {
        (self.element.alignment - offset % self.element.alignment) % self.element.alignment
    }

    /// Stride accumulation at this link: pad the total to the element's
    /// alignment, add the element's bytes, and continue with the rest.
    pub fn stride_from(&self, total: i32, max_alignment: i32) -> (r: i32)
        requires
            wf_elements(self.elements()),
            0 <= total,
            1 <= max_alignment <= 8,
            total + 40 * self.elements().len() + 8 <= i32::MAX,
        ensures
            r == spec_stride(self.elements(), total as int, max_alignment as int),
        decreases self,
    {
        proof {
            assert(self.elements()[0] == self.element);
            assert(self.elements()[0].wf());
            assert(self.elements().drop_first() =~= self.rest.elements());
            assert forall|i: int| 0 <= i < self.rest.elements().len() implies (#[trigger] self.rest.elements()[i]).wf() by {
                assert(self.rest.elements()[i] == self.elements()[i + 1]);
            }
            assert(self.element.byte_size * self.element.components <= 32) by (nonlinear_arith)
                requires
                    0 <= self.element.byte_size <= 8 && 0 <= self.element.components <= 4,
            ;
        }
        let pad = self.padding(total as usize);
        let aligned = total + (pad as i32);
        let size = (self.element.byte_size as i32) * (self.element.components as i32);
        let align = self.element.alignment as i32;
        let next_max = if align >= max_alignment {
            align
        } else {
            max_alignment
        };
        self.rest.stride_from(aligned + size, next_max)
    }

    /// Total byte stride of one record laid out by this chain, end padding
    /// included.  A pure function of the chain: it always returns the same
    /// value, and that value is a multiple of the chain's largest
    /// alignment.
    pub fn stride(&self) -> (r: i32)
        requires
            self.wf(),
        ensures
            r == spec_stride(self.elements(), 0, 1),
            r as int % spec_max_alignment(self.elements(), 1) == 0,
    {
        proof {
            lemma_stride_mod_rec(self.elements(), 0, 1);
        }
        self.stride_from(0, 1)
    }
}

impl AttributeChain {
    /// The elements of the chain, in order.
    pub open spec fn elements(self) -> Seq<Element>
        decreases self,
    {
        match self {
            AttributeChain::Node(a) => seq![a.element] + a.rest.elements(),
            AttributeChain::Tail(_) => Seq::empty(),
        }
    }

    /// Validity of the chain: every element valid and no more than
    /// [`MAX_ATTRIBUTES`] of them.
    pub open spec fn wf(self) -> bool {
        &&& wf_elements(self.elements())
        &&& self.elements().len() <= MAX_ATTRIBUTES
    }

    /// Stride accumulation over the remaining chain.
    pub fn stride_from(&self, total: i32, max_alignment: i32) -> (r: i32)
        requires
            wf_elements(self.elements()),
            0 <= total,
            1 <= max_alignment <= 8,
            total + 40 * self.elements().len() + 8 <= i32::MAX,
        ensures
            r == spec_stride(self.elements(), total as int, max_alignment as int),
        decreases self,
    {
        match self {
            AttributeChain::Node(a) => {
                proof {
                    assert(self.elements() =~= a.elements());
                }
                a.stride_from(total, max_alignment)
            },
            AttributeChain::Tail(t) => t.stride(total, max_alignment),
        }
    }

    /// Total byte stride of one record laid out by this chain; a multiple
    /// of the chain's largest alignment.
    pub fn stride(&self) -> (r: i32)
        requires
            self.wf(),
        ensures
            r == spec_stride(self.elements(), 0, 1),
            r as int % spec_max_alignment(self.elements(), 1) == 0,
    {
        proof {
            lemma_stride_mod_rec(self.elements(), 0, 1);
        }
        self.stride_from(0, 1)
    }
}

/// The stride is divisible by the running maximum alignment folded over
/// the chain.
proof fn lemma_stride_mod_rec(elems: Seq<Element>, total: int, m: int)
    requires
        wf_elements(elems),
        total >= 0,
        m >= 1,
    ensures
        spec_stride(elems, total, m) % spec_max_alignment(elems, m) == 0,
        spec_stride(elems, total, m) >= total,
    decreases elems.len(),
{
    if elems.len() == 0 {
        lemma_pad_mod(total, m);
    } else {
        let e = elems[0];
        assert(e.wf());
        lemma_pad_mod(total, e.alignment as int);
        let aligned = total + spec_padding(total, e.alignment as int);
        assert(spec_elem_bytes(e) >= 0) by {
            assert(e.byte_size * e.components >= 0) by (nonlinear_arith)
                requires
                    e.byte_size >= 0 && e.components >= 0,
            ;
        }
        assert forall|i: int| 0 <= i < elems.drop_first().len() implies (#[trigger] elems.drop_first()[i]).wf() by {
            assert(elems.drop_first()[i] == elems[i + 1]);
        }
        lemma_stride_mod_rec(
            elems.drop_first(),
            aligned + spec_elem_bytes(e),
            spec_max(e.alignment as int, m),
        );
    }
}

/// For every valid chain, the stride is a multiple of the largest
/// alignment among the chain's elements.
pub proof fn lemma_stride_aligned(elems: Seq<Element>)
    requires
        wf_elements(elems),
    ensures
        spec_stride(elems, 0, 1) % spec_max_alignment(elems, 1) == 0,
{
    lemma_stride_mod_rec(elems, 0, 1);
}

/// Each assigned offset is aligned for its element and does not precede
/// the starting offset.
proof fn lemma_offsets_props(elems: Seq<Element>, off: int)
    requires
        wf_elements(elems),
        off >= 0,
    ensures
        forall|i: int|
            0 <= i < elems.len() ==> (#[trigger] spec_offsets(elems, off)[i]) % (
            elems[i].alignment as int) == 0,
        forall|i: int| 0 <= i < elems.len() ==> (#[trigger] spec_offsets(elems, off)[i]) >= off,
    decreases elems.len(),
{
    lemma_offsets_len(elems, off);
    if elems.len() > 0 {
        let e = elems[0];
        assert(e.wf());
        lemma_pad_mod(off, e.alignment as int);
        let aligned = off + spec_padding(off, e.alignment as int);
        assert(spec_elem_bytes(e) >= 0) by (nonlinear_arith)
            requires
                e.byte_size >= 0 && e.components >= 0,
        ;
        let rest = elems.drop_first();
        assert forall|i: int| 0 <= i < rest.len() implies (#[trigger] rest[i]).wf() by {
            assert(rest[i] == elems[i + 1]);
        }
        lemma_offsets_props(rest, aligned + spec_elem_bytes(e));
        lemma_offsets_len(rest, aligned + spec_elem_bytes(e));
        assert(spec_offsets(elems, off) == seq![aligned] + spec_offsets(
            rest,
            aligned + spec_elem_bytes(e),
        ));
        assert forall|i: int| 0 <= i < elems.len() implies (#[trigger] spec_offsets(elems, off)[i])
            % (elems[i].alignment as int) == 0 && spec_offsets(elems, off)[i] >= off by {
            if i >= 1 {
                assert(spec_offsets(elems, off)[i] == spec_offsets(
                    rest,
                    aligned + spec_elem_bytes(e),
                )[i - 1]);
                assert(elems[i] == rest[i - 1]);
            }
        }
    }
}

/// For every valid chain, the byte offset assigned to each element
/// is a multiple of that element's alignment.
pub proof fn lemma_offsets_aligned(elems: Seq<Element>)
    requires
        wf_elements(elems),
    ensures
        forall|i: int|
            0 <= i < elems.len() ==> (#[trigger] spec_offsets(elems, 0)[i]) % (
            elems[i].alignment as int) == 0,
{
    lemma_offsets_props(elems, 0);
}

/// Every element's data ends at or before the stride of the remaining
/// layout.
proof fn lemma_fit_rec(elems: Seq<Element>, off: int, m: int)
    requires
        wf_elements(elems),
        off >= 0,
        m >= 1,
    ensures
        forall|i: int|
            0 <= i < elems.len() ==> (#[trigger] spec_offsets(elems, off)[i]) + spec_elem_bytes(
                elems[i],
            ) <= spec_stride(elems, off, m),
    decreases elems.len(),
{
    lemma_offsets_len(elems, off);
    if elems.len() > 0 {
        let e = elems[0];
        assert(e.wf());
        lemma_pad_mod(off, e.alignment as int);
        let aligned = off + spec_padding(off, e.alignment as int);
        assert(spec_elem_bytes(e) >= 0) by (nonlinear_arith)
            requires
                e.byte_size >= 0 && e.components >= 0,
        ;
        let rest = elems.drop_first();
        assert forall|i: int| 0 <= i < rest.len() implies (#[trigger] rest[i]).wf() by {
            assert(rest[i] == elems[i + 1]);
        }
        let total2 = aligned + spec_elem_bytes(e);
        let m2 = spec_max(e.alignment as int, m);
        lemma_stride_mod_rec(rest, total2, m2);
        lemma_fit_rec(rest, total2, m2);
        lemma_offsets_len(rest, total2);
        assert(spec_offsets(elems, off) == seq![aligned] + spec_offsets(rest, total2));
        assert(spec_stride(elems, off, m) == spec_stride(rest, total2, m2));
        assert forall|i: int| 0 <= i < elems.len() implies (#[trigger] spec_offsets(elems, off)[i])
            + spec_elem_bytes(elems[i]) <= spec_stride(elems, off, m) by {
            if i == 0 {
                assert(spec_offsets(elems, off)[0] + spec_elem_bytes(elems[0]) == total2);
            } else {
                assert(spec_offsets(elems, off)[i] == spec_offsets(rest, total2)[i - 1]);
                assert(elems[i] == rest[i - 1]);
            }
        }
    }
}

/// For every valid chain, no element's data runs past the record
/// boundary: each element's offset plus its bytes is at most the stride.
pub proof fn lemma_offsets_within_stride(elems: Seq<Element>)
    requires
        wf_elements(elems),
    ensures
        forall|i: int|
            0 <= i < elems.len() ==> (#[trigger] spec_offsets(elems, 0)[i]) + spec_elem_bytes(
                elems[i],
            ) <= spec_stride(elems, 0, 1),
{
    lemma_fit_rec(elems, 0, 1);
}

/// One attribute description directive, handed verbatim to the graphics
/// binding layer: attribute slot, element format, record stride and byte
/// offset of the attribute inside one record.
#[derive(Clone, Copy, Debug, PartialEq, Eq, Structural)]
pub struct AttribDirective {
    /// Attribute slot the directive describes.
    pub index: u32,
    /// How many components the attribute has.
    pub components: u32,
    /// Tag of the scalar storage type.
    pub kind: ScalarKind,
    /// Whether integer values are read as normalized fixed-point.
    pub normalized: bool,
    /// Byte stride of one complete record.
    pub stride: i32,
    /// Byte offset of the attribute inside one record.
    pub offset: usize,
}

/// One directive describes one element at one slot and offset.
pub open spec fn directive_matches(
    d: AttribDirective,
    e: Element,
    index: int,
    offset: int,
    stride: int,
) -> bool {
    &&& d.index == index
    &&& d.components == e.components
    &&& d.kind == e.kind
    &&& d.normalized == e.normalized
    &&& d.stride == stride
    &&& d.offset == offset
}

/// The directive sequence describes the elements in order: the i-th
/// directive carries slot `base + i`, the i-th element's format, the given
/// stride, and the byte offset the layout recurrence assigns to element i.
pub open spec fn directives_for(
    ds: Seq<AttribDirective>,
    elems: Seq<Element>,
    base: int,
    offset: int,
    stride: int,
) -> bool {
    &&& ds.len() == elems.len()
    &&& forall|i: int|
        0 <= i < elems.len() ==> directive_matches(
            #[trigger] ds[i],
            elems[i],
            base + i,
            spec_offsets(elems, offset)[i],
            stride,
        )
}

impl AttributeTail {
    /// The terminal marker emits no directive.
    pub fn declare(&self, index: u32, offset: usize, stride: i32, out: &mut Vec<AttribDirective>)
        ensures
            final(out)@ == old(out)@,
    {
        let _ = index;
        let _ = offset;
        let _ = stride;
        let _ = out;
    }
}

impl Attribute {
    /// Emit the directive for this link's element at slot `index`, then
    /// continue with the rest of the chain at the next slot.
    pub fn declare_into(
        &self,
        index: u32,
        offset: usize,
        stride: i32,
        out: &mut Vec<AttribDirective>,
    )
        requires
            wf_elements(self.elements()),
            index + self.elements().len() <= u32::MAX,
            offset + 40 * self.elements().len() <= usize::MAX,
            old(out)@.len() + self.elements().len() <= usize::MAX,
        ensures
            final(out)@.len() == old(out)@.len() + self.elements().len(),
            final(out)@.subrange(0, old(out)@.len() as int) == old(out)@,
            directives_for(
                final(out)@.subrange(old(out)@.len() as int, final(out)@.len() as int),
                self.elements(),
                index as int,
                offset as int,
                stride as int,
            ),
        decreases self,
    {
        proof {
            assert(self.elements()[0] == self.element);
            assert(self.elements()[0].wf());
            assert(self.elements().drop_first() =~= self.rest.elements());
            assert forall|i: int| 0 <= i < self.rest.elements().len() implies (#[trigger] self.rest.elements()[i]).wf() by {
                assert(self.rest.elements()[i] == self.elements()[i + 1]);
            }
            assert(self.element.byte_size * self.element.components <= 32) by (nonlinear_arith)
                requires
                    0 <= self.element.byte_size <= 8 && 0 <= self.element.components <= 4,
            ;
        }
        let pad = self.padding(offset);
        let aligned = offset + pad;
        let size = self.element.byte_size * (self.element.components as usize);
        out.push(
            AttribDirective {
                index,
                components: self.element.components,
                kind: self.element.kind,
                normalized: self.element.normalized,
                stride,
                offset: aligned,
            },
        );
        let ghost mid = out@;
        self.rest.declare_into(index + 1, aligned + size, stride, out);
        proof {
            let elems = self.elements();
            let rest = self.rest.elements();
            let all = final(out)@;
            let n = old(out)@.len() as int;
            assert(all.subrange(0, mid.len() as int) == mid);
            assert forall|j: int| 0 <= j < n implies all.subrange(0, n)[j] == old(out)@[j] by {
                assert(all[j] == mid[j]);
            }
            assert(all.subrange(0, n) =~= old(out)@);
            let ds = all.subrange(n, all.len() as int);
            let ds_rest = all.subrange(mid.len() as int, all.len() as int);
            lemma_offsets_len(elems, offset as int);
            lemma_offsets_len(rest, aligned + size);
            assert(spec_offsets(elems, offset as int) == seq![aligned as int] + spec_offsets(
                rest,
                aligned + size,
            ));
            assert(spec_offsets(elems, offset as int)[0] == aligned);
            assert forall|i: int| 1 <= i < elems.len() implies spec_offsets(elems, offset as int)[i]
                == spec_offsets(rest, aligned + size)[i - 1] by {
                assert(spec_offsets(elems, offset as int) == seq![aligned as int] + spec_offsets(
                    rest,
                    aligned + size,
                ));
            }
            assert(ds[0] == mid[n]);
            assert forall|i: int| 1 <= i < ds.len() implies ds[i] == ds_rest[i - 1] by {
                assert(ds[i] == all[n + i]);
                assert(ds_rest[i - 1] == all[mid.len() + (i - 1)]);
            }
            assert(directives_for(ds, elems, index as int, offset as int, stride as int));
        }
    }

    /// Produce the directives that declare this chain's layout at
    /// consecutive attribute slots starting from `base_index`: one per
    /// element, in chain order, all carrying the chain's stride.  A pure
    /// function of the chain and `base_index`.
    pub fn declare(&self, base_index: u32) -> (r: Vec<AttribDirective>)
        requires
            self.wf(),
            base_index + self.elements().len() <= u32::MAX,
        ensures
            r@.len() == self.elements().len(),
            directives_for(
                r@,
                self.elements(),
                base_index as int,
                0,
                spec_stride(self.elements(), 0, 1),
            ),
    {
        let stride = self.stride();
        let mut out: Vec<AttribDirective> = Vec::new();
        self.declare_into(base_index, 0, stride, &mut out);
        proof {
            assert(out@.subrange(0, out@.len() as int) =~= out@);
        }
        out
    }
}

impl AttributeChain {
    /// Emit one directive per element of the remaining chain, starting at
    /// slot `index` and byte offset `offset`.
    pub fn declare_into(
        &self,
        index: u32,
        offset: usize,
        stride: i32,
        out: &mut Vec<AttribDirective>,
    )
        requires
            wf_elements(self.elements()),
            index + self.elements().len() <= u32::MAX,
            offset + 40 * self.elements().len() <= usize::MAX,
            old(out)@.len() + self.elements().len() <= usize::MAX,
        ensures
            final(out)@.len() == old(out)@.len() + self.elements().len(),
            final(out)@.subrange(0, old(out)@.len() as int) == old(out)@,
            directives_for(
                final(out)@.subrange(old(out)@.len() as int, final(out)@.len() as int),
                self.elements(),
                index as int,
                offset as int,
                stride as int,
            ),
        decreases self,
    {
        match self {
            AttributeChain::Node(a) => {
                proof {
                    assert(self.elements() =~= a.elements());
                }
                a.declare_into(index, offset, stride, out);
            },
            AttributeChain::Tail(t) => {
                t.declare(index, offset, stride, out);
                proof {
                    assert(final(out)@.subrange(0, old(out)@.len() as int) =~= old(out)@);
                }
            },
        }
    }

    /// Produce the directives that declare this chain's layout at
    /// consecutive attribute slots starting from `base_index`.
    pub fn declare(&self, base_index: u32) -> (r: Vec<AttribDirective>)
        requires
            self.wf(),
            base_index + self.elements().len() <= u32::MAX,
        ensures
            r@.len() == self.elements().len(),
            directives_for(
                r@,
                self.elements(),
                base_index as int,
                0,
                spec_stride(self.elements(), 0, 1),
            ),
    {
        let stride = self.stride();
        let mut out: Vec<AttribDirective> = Vec::new();
        self.declare_into(base_index, 0, stride, &mut out);
        proof {
            assert(out@.subrange(0, out@.len() as int) =~= out@);
        }
        out
    }
}

/// Build the attribute chain for an ordered element list: the first list
/// entry becomes the outermost link, so attribute order follows list
/// order.  The chain is nested back to front, from the last element in to
/// the first, which leaves the observable order unaffected.
///
/// Fails exactly when the list asks for more than [`MAX_ATTRIBUTES`]
/// attribute slots.
pub fn build_chain(elements: &Vec<Element>) -> (r: Result<AttributeChain, LayoutError>)
    ensures
        r is Ok <==> elements@.len() <= MAX_ATTRIBUTES,
        r matches Ok(c) ==> c.elements() == elements@,
        r matches Ok(c) ==> (wf_elements(elements@) ==> c.wf()),
        elements@.len() > MAX_ATTRIBUTES ==> r == Result::<AttributeChain, LayoutError>::Err(
            LayoutError::TooManyAttributes,
        ),
{
    if elements.len() > MAX_ATTRIBUTES {
        return Err(LayoutError::TooManyAttributes);
    }
    let ghost n = elements@.len() as int;
    let mut chain = AttributeChain::Tail(AttributeTail);
    let mut i: usize = elements.len();
    while i > 0
        invariant
            i <= elements@.len(),
            chain.elements() == elements@.subrange(i as int, n),
            n == elements@.len(),
        decreases i,
    {
        i = i - 1;
        let e = elements[i];
        chain = AttributeChain::Node(Attribute { element: e, rest: Box::new(chain) });
        proof {
            assert(chain.elements() =~= elements@.subrange(i as int, n));
        }
    }
    proof {
        assert(chain.elements() =~= elements@);
    }
    Ok(chain)
}

} // verus!
