//! Shader-facing resource bindings and vertex layouts, with the rules that the
//! `ResourceBinding` and `BufferLayout` derives apply to field attributes:
//! binding kinds and stages, attribute sizes, the ordering and uniqueness of
//! `(binding, location)`, per-binding offsets and strides.
use vstd::prelude::*;
use crate::pipeline::{spec_stage_mask, parse_stage_mask};
use crate::text::{chars_of, eq_lit, parse_usize, parses_unsigned, decimal_value, unsigned_digits};

verus! {

#[derive(Clone, Debug)]
pub enum ResourceKind {
    Uniform,
    Texture,
    Sampler,
    CombinedImageSampler,
    StorageBuffer,
    StorageImage,
}

#[derive(Clone, Debug)]
pub struct BindingStages {
    pub vs: bool,
    pub fs: bool,
    pub cs: bool,
}

#[derive(Clone, Debug)]
pub struct BindingDesc {
    pub field: &'static str,
    pub set: u32,
    pub binding: u32,
    pub kind: ResourceKind,
    pub stages: Option<BindingStages>,
}

/// Types that describe the descriptor bindings their shaders use.
pub trait ResourceBindings {
    fn bindings() -> &'static [BindingDesc];
}

#[derive(Clone, Debug)]
pub enum StepMode {
    Vertex,
    Instance,
}

#[derive(Clone, Debug)]
pub struct VertexBufferDesc {
    pub binding: u32,
    pub stride: u32,
    pub step: StepMode,
}

#[derive(Clone, Debug)]
pub struct VertexAttr {
    pub field: &'static str,
    pub binding: u32,
    pub location: u32,
    pub format: &'static str,
    pub offset: u32,
    pub size: u32,
}

/// Types that describe a vertex layout statically.
pub trait VertexLayout {
    fn vertex_attrs() -> &'static [VertexAttr];
    fn vertex_buffers() -> &'static [VertexBufferDesc];
}

#[derive(Clone, Debug, PartialEq, Eq, Structural)]
pub enum GpuResourceKind {
    Buffer,
    Image,
}

// ---------------------------------------------------------------------------
// ResourceBinding rules
// ---------------------------------------------------------------------------

/// The kind a binding attribute name selects: `uniform`, `texture`, `sampler`; any other
/// name (the schema only admits `combined`) is a combined image sampler.
pub open spec fn spec_resource_kind(name: Seq<char>) -> ResourceKind {
    if name == "uniform"@ {
        ResourceKind::Uniform
    } else if name == "texture"@ {
        ResourceKind::Texture
    } else if name == "sampler"@ {
        ResourceKind::Sampler
    } else {
        ResourceKind::CombinedImageSampler
    }
}

pub fn resource_kind_for_attr(name: &str) -> (r: ResourceKind)
    ensures
        r == spec_resource_kind(name@),
{
    let n = chars_of(name);
    if eq_lit(n.as_slice(), "uniform") {
        ResourceKind::Uniform
    } else if eq_lit(n.as_slice(), "texture") {
        ResourceKind::Texture
    } else if eq_lit(n.as_slice(), "sampler") {
        ResourceKind::Sampler
    } else {
        ResourceKind::CombinedImageSampler
    }
}

/// The shader stages a `stages = ".."` value names (`vs|vert|vertex`, `fs|frag|fragment`,
/// `cs|comp|compute`, separated by `|`, `,` or space; unknown pieces are ignored).
pub open spec fn spec_binding_stages(s: Seq<char>) -> BindingStages {
    let m = spec_stage_mask(s);
    BindingStages { vs: m.vs, fs: m.fs, cs: m.cs }
}

pub fn binding_stages_from_str(s: &str) -> (r: BindingStages)
    ensures
        r == spec_binding_stages(s@),
{
    let m = parse_stage_mask(chars_of(s).as_slice());
    BindingStages { vs: m.vs, fs: m.fs, cs: m.cs }
}

/// Whether the entry at `i` repeats the `(set, binding)` of an earlier entry.
pub open spec fn repeats_earlier(keys: Seq<(u32, u32)>, i: int) -> bool {
    exists|j: int| 0 <= j < i && keys[j] == keys[i]
}

/// The first entry whose `(set, binding)` already occurred: `(set, binding)` pairs must be
/// unique across a resource binding struct.
pub fn first_duplicate_binding(keys: &[(u32, u32)]) -> (r: Option<usize>)
    ensures
        r matches Some(i) ==> i < keys@.len() && repeats_earlier(keys@, i as int) && forall|
            k: int,
        | 0 <= k < i ==> !repeats_earlier(keys@, k),
        r is None ==> forall|k: int| 0 <= k < keys@.len() ==> !repeats_earlier(keys@, k),
{
    let mut i: usize = 0;
    while i < keys.len()
        invariant
            i <= keys@.len(),
            forall|k: int| 0 <= k < i ==> !repeats_earlier(keys@, k),
        decreases keys@.len() - i,
    {
        let mut j: usize = 0;
        while j < i
            invariant
                i < keys@.len(),
                j <= i,
                forall|k: int| 0 <= k < i ==> !repeats_earlier(keys@, k),
                forall|m: int| 0 <= m < j ==> keys@[m] != keys@[i as int],
            decreases i - j,
        {
            if keys[j].0 == keys[i].0 && keys[j].1 == keys[i].1 {
                assert(keys@[j as int] == keys@[i as int]);
                return Some(i);
            }
            j = j + 1;
        }
        i = i + 1;
    }
    None
}

// ---------------------------------------------------------------------------
// BufferLayout rules
// ---------------------------------------------------------------------------

/// The byte size of a vertex attribute format name.
pub open spec fn spec_size_from_format(fmt: Seq<char>) -> Option<usize> {
    if fmt == "f32"@ || fmt == "u32"@ || fmt == "i32"@ {
        Some(4)
    } else if fmt == "vec2"@ {
        Some(8)
    } else if fmt == "vec3"@ {
        Some(12)
    } else if fmt == "vec4"@ {
        Some(16)
    } else if fmt == "rgba8_unorm"@ || fmt == "u8x4_norm"@ {
        Some(4)
    } else if fmt == "mat4"@ {
        Some(64)
    } else {
        None
    }
}

/// Infers the size of an attribute from its format string.
pub fn size_from_format(fmt: &str) -> (r: Option<usize>)
    ensures
        r == spec_size_from_format(fmt@),
{
    let f = chars_of(fmt);
    let f = f.as_slice();
    if eq_lit(f, "f32") || eq_lit(f, "u32") || eq_lit(f, "i32") {
        Some(4)
    } else if eq_lit(f, "vec2") {
        Some(8)
    } else if eq_lit(f, "vec3") {
        Some(12)
    } else if eq_lit(f, "vec4") {
        Some(16)
    } else if eq_lit(f, "rgba8_unorm") || eq_lit(f, "u8x4_norm") {
        Some(4)
    } else if eq_lit(f, "mat4") {
        Some(64)
    } else {
        None
    }
}

/// The shape of a field type, as far as size inference reads it: a path (by its last
/// segment), an array (element and the base-10 digits of an integer length literal, if the
/// length is one), or anything else.
#[derive(Debug)]
pub enum TypeShape {
    Path(String),
    Array(Box<TypeShape>, Option<String>),
    Other,
}

/// The byte size inferred for a field type: 4 for `f32`, `u32`, `i32`; element size times
/// length for arrays with a literal length; nothing otherwise.
pub open spec fn spec_type_size(t: TypeShape) -> Option<nat>
    decreases t,
{
    match t {
        TypeShape::Path(name) => if name@ == "f32"@ || name@ == "u32"@ || name@ == "i32"@ {
            Some(4nat)
        } else {
            None
        },
        TypeShape::Array(elem, len) => match spec_type_size(*elem) {
            Some(e) => match len {
                Some(d) => if parses_unsigned(d@, usize::MAX as nat) {
                    Some(e * decimal_value(unsigned_digits(d@)))
                } else {
                    None
                },
                None => None,
            },
            None => None,
        },
        TypeShape::Other => None,
    }
}

/// Every product that size inference computes fits in `usize` (it panics otherwise).
pub open spec fn type_size_fits(t: TypeShape) -> bool
    decreases t,
{
    match t {
        TypeShape::Array(elem, len) => type_size_fits(*elem) && match spec_type_size(*elem) {
            Some(e) => match len {
                Some(d) => parses_unsigned(d@, usize::MAX as nat) ==> e * decimal_value(
                    unsigned_digits(d@),
                ) <= usize::MAX,
                None => true,
            },
            None => true,
        },
        _ => true,
    }
}

/// Infers the size of an attribute from its field type.
pub fn size_from_type(t: &TypeShape) -> (r: Option<usize>)
    requires
        type_size_fits(*t),
    ensures
        r matches Some(v) ==> spec_type_size(*t) == Some(v as nat),
        r is None ==> spec_type_size(*t) is None,
    decreases t,
{
    match t {
        TypeShape::Path(name) => {
            let n = chars_of(name.as_str());
            let n = n.as_slice();
            if eq_lit(n, "f32") || eq_lit(n, "u32") || eq_lit(n, "i32") {
                Some(4)
            } else {
                None
            }
        },
        TypeShape::Array(elem, len) => {
            let e = match size_from_type(elem) {
                Some(e) => e,
                None => {
                    return None;
                },
            };
            match len {
                Some(d) => match parse_usize(chars_of(d.as_str()).as_slice()) {
                    Some(count) => {
                        assert(e as nat * count as nat <= usize::MAX);
                        Some(e * count)
                    },
                    None => None,
                },
                None => None,
            }
        },
        TypeShape::Other => None,
    }
}

/// The step mode a buffer `step = ".."` value names; absent means per-vertex.
pub open spec fn spec_step_mode(s: Option<Seq<char>>) -> Option<StepMode> {
    match s {
        None => Some(StepMode::Vertex),
        Some(t) => if t == "vertex"@ {
            Some(StepMode::Vertex)
        } else if t == "instance"@ {
            Some(StepMode::Instance)
        } else {
            None
        },
    }
}

pub fn step_mode_from_attr(s: Option<&str>) -> (r: Option<StepMode>)
    ensures
        r == spec_step_mode(
            match s {
                Some(t) => Some(t@),
                None => None,
            },
        ),
{
    match s {
        None => Some(StepMode::Vertex),
        Some(t) => {
            let c = chars_of(t);
            if eq_lit(c.as_slice(), "vertex") {
                Some(StepMode::Vertex)
            } else if eq_lit(c.as_slice(), "instance") {
                Some(StepMode::Instance)
            } else {
                None
            }
        },
    }
}

/// Why the size of a vertex attribute could not be found.
#[derive(Debug, Clone, Copy, PartialEq, Eq, Structural)]
pub enum AttrSizeError {
    /// A `format` was given that names no known format.
    UnknownFormat,
    /// No `format` was given and the field type gives no size.
    CannotInfer,
}

/// The size of a vertex attribute: from its `format` when one is given (the field type is
/// then not looked at), else from its field type.
pub open spec fn spec_attr_size(format: Option<Seq<char>>, t: TypeShape) -> Result<nat, AttrSizeError> {
    match format {
        Some(f) => match spec_size_from_format(f) {
            Some(n) => Ok(n as nat),
            None => Err(AttrSizeError::UnknownFormat),
        },
        None => match spec_type_size(t) {
            Some(n) => Ok(n),
            None => Err(AttrSizeError::CannotInfer),
        },
    }
}

/// Finds the size of a vertex attribute: a given `format` decides, else the field type.
pub fn attr_size(format: Option<&str>, t: &TypeShape) -> (r: Result<usize, AttrSizeError>)
    requires
        format is None ==> type_size_fits(*t),
    ensures
        match spec_attr_size(
            match format {
                Some(f) => Some(f@),
                None => None,
            },
            *t,
        ) {
            Ok(n) => r matches Ok(v) && v as nat == n,
            Err(e) => r == Err::<usize, AttrSizeError>(e),
        },
{
    match format {
        Some(f) => match size_from_format(f) {
            Some(n) => Ok(n),
            None => Err(AttrSizeError::UnknownFormat),
        },
        None => match size_from_type(t) {
            Some(n) => Ok(n),
            None => Err(AttrSizeError::CannotInfer),
        },
    }
}

/// A vertex attribute collected from a `#[vertex(..)]` field attribute.
#[derive(Clone, Debug)]
pub struct VertexAttrRec {
    pub field: String,
    pub binding: u32,
    pub location: u32,
    pub format: Option<String>,
    pub offset: u32,
    pub size: u32,
}

pub open spec fn same_slot(a: VertexAttrRec, b: VertexAttrRec) -> bool {
    a.binding == b.binding && a.location == b.location
}

/// `(binding, location)` of `a` is below that of `b`.
pub open spec fn slot_lt(a: VertexAttrRec, b: VertexAttrRec) -> bool {
    a.binding < b.binding || (a.binding == b.binding && a.location < b.location)
}

/// The record at `i` takes a `(binding, location)` slot that an earlier record took.
pub open spec fn slot_taken_before(s: Seq<VertexAttrRec>, i: int) -> bool {
    exists|j: int| 0 <= j < i && same_slot(s[j], s[i])
}

/// The record that a stable sort by `(binding, location)` puts second in the first pair of
/// equal neighbours: among the records whose slot was taken before, the one with the
/// smallest slot, and of those the earliest.
pub open spec fn is_first_clash(s: Seq<VertexAttrRec>, i: int) -> bool {
    &&& 0 <= i < s.len()
    &&& slot_taken_before(s, i)
    &&& forall|k: int|
        0 <= k < s.len() && slot_taken_before(s, k) ==> slot_lt(s[i], s[k]) || (same_slot(
            s[i],
            s[k],
        ) && i <= k)
}

/// Sorted by strictly increasing `(binding, location)`.
pub open spec fn strictly_sorted(s: Seq<VertexAttrRec>) -> bool {
    forall|i: int, j: int| 0 <= i < j < s.len() ==> slot_lt(s[i], s[j])
}

/// Orders attribute records by `(binding, location)` and checks that no slot is taken twice.
/// On a clash it gives the index (in `recs`) of the record that repeats the smallest slot.
pub fn sort_vertex_attrs(recs: Vec<VertexAttrRec>) -> (r: Result<Vec<VertexAttrRec>, usize>)
    ensures
        r matches Err(i) ==> is_first_clash(recs@, i as int),
        r is Ok <==> forall|k: int| 0 <= k < recs@.len() ==> !slot_taken_before(recs@, k),
        r matches Ok(v) ==> strictly_sorted(v@) && v@.to_multiset() == recs@.to_multiset(),
{
    // Find the first clash, if any.
    let mut best: Option<usize> = None;
    let mut i: usize = 0;
    while i < recs.len()
        invariant
            i <= recs@.len(),
            best matches Some(b) ==> b < i && slot_taken_before(recs@, b as int) && forall|k: int|
                0 <= k < i && slot_taken_before(recs@, k) ==> slot_lt(recs@[b as int], recs@[k])
                    || (same_slot(recs@[b as int], recs@[k]) && b <= k),
            best is None ==> forall|k: int| 0 <= k < i ==> !slot_taken_before(recs@, k),
        decreases recs@.len() - i,
    {
        let mut taken = false;
        let mut j: usize = 0;
        while j < i
            invariant
                i < recs@.len(),
                j <= i,
                taken ==> slot_taken_before(recs@, i as int),
                !taken ==> forall|m: int| 0 <= m < j ==> !same_slot(recs@[m], recs@[i as int]),
            decreases i - j,
        {
            if recs[j].binding == recs[i].binding && recs[j].location == recs[i].location {
                taken = true;
            }
            j = j + 1;
        }
        if taken {
            match best {
                None => {
                    best = Some(i);
                },
                Some(b) => {
                    if recs[i].binding < recs[b].binding || (recs[i].binding == recs[b].binding
                        && recs[i].location < recs[b].location) {
                        best = Some(i);
                    }
                },
            }
        }
        i = i + 1;
    }
    if let Some(b) = best {
        return Err(b);
    }
    // No clash: selection sort by slot, moving the smallest remaining record each round.
    let ghost orig = recs@;
    proof {
        lemma_distinct_slots(orig);
    }
    let mut out: Vec<VertexAttrRec> = Vec::new();
    let mut rest = recs;
    proof {
        broadcast use vstd::seq_lib::group_seq_properties, vstd::multiset::group_multiset_axioms, vstd::multiset::group_multiset_properties;
        assert(out@.to_multiset().len() == 0);
        assert(out@.to_multiset() =~= vstd::multiset::Multiset::empty());
        assert(out@.to_multiset().add(rest@.to_multiset()) =~= orig.to_multiset());
    }
    while rest.len() > 0
        invariant
            distinct_slots(rest@),
            strictly_sorted(out@),
            forall|a: int, b: int| 0 <= a < out@.len() && 0 <= b < rest@.len() ==> slot_lt(out@[a], rest@[b]),
            out@.to_multiset().add(rest@.to_multiset()) == orig.to_multiset(),
        decreases rest@.len(),
    {
        let mut m: usize = 0;
        let mut k: usize = 1;
        while k < rest.len()
            invariant
                0 < rest@.len(),
                m < rest@.len(),
                1 <= k <= rest@.len(),
                m < k,
                distinct_slots(rest@),
                forall|b: int| 0 <= b < k && b != m ==> slot_lt(rest@[m as int], rest@[b]),
            decreases rest@.len() - k,
        {
            if slot_less(&rest[k], &rest[m]) {
                proof {
                    assert forall|b: int| 0 <= b < k + 1 && b != k implies slot_lt(rest@[k as int], rest@[b]) by {
                        if b != m {
                            assert(slot_lt(rest@[m as int], rest@[b]));
                        }
                    }
                }
                m = k;
            } else {
                proof {
                    assert(!same_slot(rest@[m as int], rest@[k as int]));
                }
            }
            k = k + 1;
        }
        let ghost old_rest = rest@;
        let ghost old_out = out@;
        let item = rest.remove(m);
        proof {
            broadcast use vstd::seq_lib::group_seq_properties, vstd::multiset::group_multiset_axioms, vstd::multiset::group_multiset_properties;
            assert(rest@ =~= old_rest.remove(m as int));
            assert forall|i: int, j: int| 0 <= i < j < rest@.len() implies !same_slot(rest@[i], rest@[j]) by {
                let oi = if i < m { i } else { i + 1 };
                let oj = if j < m { j } else { j + 1 };
                assert(rest@[i] == old_rest[oi]);
                assert(rest@[j] == old_rest[oj]);
            }
            assert forall|b: int| 0 <= b < rest@.len() implies slot_lt(item, rest@[b]) by {
                let ob = if b < m { b } else { b + 1 };
                assert(rest@[b] == old_rest[ob]);
            }
        }
        out.push(item);
        proof {
            broadcast use vstd::seq_lib::group_seq_properties, vstd::multiset::group_multiset_axioms, vstd::multiset::group_multiset_properties;
            assert(out@ =~= old_out.push(item));
            assert(old_rest.to_multiset() == rest@.to_multiset().insert(item)) by {
                assert(rest@.to_multiset() == old_rest.to_multiset().remove(old_rest[m as int]));
            }
            assert(out@.to_multiset().add(rest@.to_multiset()) =~= old_out.to_multiset().add(old_rest.to_multiset()));
            assert forall|a: int, b: int| 0 <= a < out@.len() && 0 <= b < rest@.len() implies slot_lt(out@[a], rest@[b]) by {
                if a < old_out.len() {
                    let ob = if b < m { b } else { b + 1 };
                    assert(rest@[b] == old_rest[ob]);
                    assert(out@[a] == old_out[a]);
                }
            }
            assert forall|i: int, j: int| 0 <= i < j < out@.len() implies slot_lt(out@[i], out@[j]) by {
                if j < old_out.len() {
                    assert(out@[i] == old_out[i]);
                    assert(out@[j] == old_out[j]);
                } else {
                    assert(out@[i] == old_out[i]);
                    assert(slot_lt(old_out[i], old_rest[m as int]));
                }
            }
        }
    }
    proof {
        broadcast use vstd::seq_lib::group_seq_properties, vstd::multiset::group_multiset_axioms, vstd::multiset::group_multiset_properties;
        assert(rest@.to_multiset().len() == 0);
        assert(rest@.to_multiset() =~= vstd::multiset::Multiset::empty());
        assert(out@.to_multiset() =~= orig.to_multiset());
    }
    Ok(out)
}

/// No two records take the same `(binding, location)` slot.
pub open spec fn distinct_slots(s: Seq<VertexAttrRec>) -> bool {
    forall|i: int, j: int| 0 <= i < j < s.len() ==> !same_slot(s[i], s[j])
}

proof fn lemma_distinct_slots(s: Seq<VertexAttrRec>)
    requires
        forall|k: int| 0 <= k < s.len() ==> !slot_taken_before(s, k),
    ensures
        distinct_slots(s),
{
    assert forall|i: int, j: int| 0 <= i < j < s.len() implies !same_slot(s[i], s[j]) by {
        assert(!slot_taken_before(s, j));
    }
}

fn slot_less(a: &VertexAttrRec, b: &VertexAttrRec) -> (r: bool)
    ensures
        r == slot_lt(*a, *b),
{
    a.binding < b.binding || (a.binding == b.binding && a.location < b.location)
}

/// Record `j` comes before record `i` in the layout of their shared binding: same binding
/// and a lower location, or the same location and an earlier position (the order a stable
/// sort by location gives).
pub open spec fn laid_out_before(s: Seq<VertexAttrRec>, j: int, i: int) -> bool {
    s[j].binding == s[i].binding && (s[j].location < s[i].location || (s[j].location
        == s[i].location && j < i))
}

/// The total size of the records among the first `n` that come before record `i`.
pub open spec fn size_before(s: Seq<VertexAttrRec>, i: int, n: int) -> nat
    decreases n,
{
    if n <= 0 {
        0
    } else {
        size_before(s, i, n - 1) + if laid_out_before(s, n - 1, i) {
            s[n - 1].size as nat
        } else {
            0nat
        }
    }
}

/// The offset of record `i` within its binding: the sizes before it, summed with
/// saturation at `u32::MAX`.
pub open spec fn spec_offset(s: Seq<VertexAttrRec>, i: int) -> u32 {
    let t = size_before(s, i, s.len() as int);
    if t > u32::MAX {
        u32::MAX
    } else {
        t as u32
    }
}

/// Computes every record's offset within its binding, in location order (saturating).
pub fn compute_offsets(attrs: &mut Vec<VertexAttrRec>)
    ensures
        final(attrs)@.len() == old(attrs)@.len(),
        forall|i: int|
            0 <= i < old(attrs)@.len() ==> {
                let a = #[trigger] final(attrs)@[i];
                let b = old(attrs)@[i];
                &&& a.offset == spec_offset(old(attrs)@, i)
                &&& a.field == b.field
                &&& a.binding == b.binding
                &&& a.location == b.location
                &&& a.format == b.format
                &&& a.size == b.size
            },
{
    let ghost s = attrs@;
    let n = attrs.len();
    let mut offsets: Vec<u32> = Vec::new();
    let mut i: usize = 0;
    while i < n
        invariant
            n == s.len(),
            attrs@ == s,
            i <= n,
            offsets@.len() == i,
            forall|k: int| 0 <= k < i ==> offsets@[k] == spec_offset(s, k),
        decreases n - i,
    {
        let mut acc: u32 = 0;
        let mut j: usize = 0;
        while j < n
            invariant
                n == s.len(),
                attrs@ == s,
                i < n,
                j <= n,
                acc as nat == if size_before(s, i as int, j as int) > u32::MAX {
                    u32::MAX as nat
                } else {
                    size_before(s, i as int, j as int)
                },
            decreases n - j,
        {
            if attrs[j].binding == attrs[i].binding && (attrs[j].location < attrs[i].location
                || (attrs[j].location == attrs[i].location && j < i)) {
                acc = acc.saturating_add(attrs[j].size);
            }
            j = j + 1;
        }
        offsets.push(acc);
        i = i + 1;
    }
    let mut k: usize = 0;
    while k < n
        invariant
            n == s.len(),
            attrs@.len() == n,
            offsets@.len() == n,
            k <= n,
            forall|m: int| 0 <= m < n ==> offsets@[m] == spec_offset(s, m),
            forall|m: int|
                0 <= m < n ==> {
                    let a = #[trigger] attrs@[m];
                    let b = s[m];
                    &&& (m < k ==> a.offset == spec_offset(s, m))
                    &&& (m >= k ==> a.offset == b.offset)
                    &&& a.field == b.field
                    &&& a.binding == b.binding
                    &&& a.location == b.location
                    &&& a.format == b.format
                    &&& a.size == b.size
                },
        decreases n - k,
    {
        attrs[k].offset = offsets[k];
        k = k + 1;
    }
}

proof fn lemma_size_before_gap(s: Seq<VertexAttrRec>, i: int, j: int, n: int)
    requires
        0 <= i < s.len(),
        0 <= j < s.len(),
        laid_out_before(s, i, j),
        0 <= n <= s.len(),
    ensures
        size_before(s, i, n) + (if i < n { s[i].size as nat } else { 0nat }) <= size_before(
            s,
            j,
            n,
        ),
    decreases n,
{
    if n > 0 {
        lemma_size_before_gap(s, i, j, n - 1);
    }
}

/// Within one vertex buffer, the byte ranges that `compute_offsets` gives two attributes
/// do not overlap: an attribute laid out before another ends at or before the other's
/// offset, as long as the sizes before the later one add up to no more than `u32::MAX`.
pub proof fn law_offsets_do_not_overlap(s: Seq<VertexAttrRec>, i: int, j: int)
    requires
        0 <= i < s.len(),
        0 <= j < s.len(),
        laid_out_before(s, i, j),
        size_before(s, j, s.len() as int) <= u32::MAX,
    ensures
        spec_offset(s, i) + s[i].size <= spec_offset(s, j),
{
    lemma_size_before_gap(s, i, j, s.len() as int);
}

/// The total size of the records among the first `n` that use vertex buffer `binding`.
pub open spec fn binding_total(s: Seq<VertexAttrRec>, binding: u32, n: int) -> nat
    decreases n,
{
    if n <= 0 {
        0
    } else {
        binding_total(s, binding, n - 1) + if s[n - 1].binding == binding {
            s[n - 1].size as nat
        } else {
            0nat
        }
    }
}

/// The stride of a vertex buffer: the override if one is given, else the sum of the
/// sizes of its attributes.
pub open spec fn spec_stride(s: Seq<VertexAttrRec>, binding: u32, stride: Option<u32>) -> u32 {
    match stride {
        Some(st) => st,
        None => binding_total(s, binding, s.len() as int) as u32,
    }
}

proof fn lemma_binding_total_mono(s: Seq<VertexAttrRec>, b: u32, i: int, j: int)
    requires
        0 <= i <= j,
    ensures
        binding_total(s, b, i) <= binding_total(s, b, j),
    decreases j - i,
{
    if i < j {
        lemma_binding_total_mono(s, b, i, j - 1);
    }
}

/// Strictly increasing.
pub open spec fn increasing(s: Seq<u32>) -> bool {
    forall|k: int, m: int| 0 <= k < m < s.len() ==> s[k] < s[m]
}

/// Adds `b` to a strictly increasing vector, keeping it strictly increasing.
fn insert_sorted(v: &mut Vec<u32>, b: u32)
    requires
        increasing(old(v)@),
    ensures
        increasing(final(v)@),
        forall|x: u32| #[trigger] final(v)@.contains(x) <==> (old(v)@.contains(x) || x == b),
{
    let mut pos: usize = 0;
    while pos < v.len() && v[pos] < b
        invariant
            pos <= v@.len(),
            forall|k: int| 0 <= k < pos ==> v@[k] < b,
        decreases v@.len() - pos,
    {
        pos = pos + 1;
    }
    if pos < v.len() && v[pos] == b {
        assert(v@.contains(b));
        return;
    }
    let ghost o = v@;
    v.insert(pos, b);
    assert(v@ =~= o.insert(pos as int, b));
    assert forall|k: int, m: int| 0 <= k < m < v@.len() implies v@[k] < v@[m] by {
        if m < pos {
            assert(v@[k] == o[k] && v@[m] == o[m]);
        } else if m == pos {
            assert(v@[k] == o[k]);
        } else if k < pos {
            assert(v@[m] == o[m - 1] && v@[k] == o[k]);
            assert(o[k] < b);
            assert(o[pos as int] > b);
            if m - 1 > pos {
                assert(o[pos as int] < o[m - 1]);
            }
        } else if k == pos {
            assert(v@[m] == o[m - 1]);
            assert(o[pos as int] > b);
            if m - 1 > pos {
                assert(o[pos as int] < o[m - 1]);
            }
        } else {
            assert(v@[m] == o[m - 1] && v@[k] == o[k - 1]);
        }
    }
    assert forall|x: u32| #[trigger] v@.contains(x) <==> (o.contains(x) || x == b) by {
        if v@.contains(x) {
            let k = choose|k: int| 0 <= k < v@.len() && v@[k] == x;
            if k < pos {
                assert(o[k] == x);
            } else if k > pos {
                assert(o[k - 1] == x);
            }
        }
        if o.contains(x) {
            let k = choose|k: int| 0 <= k < o.len() && o[k] == x;
            if k < pos {
                assert(v@[k] == x);
            } else {
                assert(v@[k + 1] == x);
            }
        }
        if x == b {
            assert(v@[pos as int] == x);
        }
    }
}

/// Computes the stride of every vertex buffer the attributes use, in increasing binding
/// order. Sums that exceed `u32::MAX` are not admitted (the addition would overflow).
pub fn compute_strides(attrs: &[VertexAttrRec], stride: Option<u32>) -> (r: Vec<(u32, u32)>)
    requires
        forall|i: int|
            0 <= i < attrs@.len() ==> binding_total(attrs@, #[trigger] attrs@[i].binding, attrs@.len() as int)
                <= u32::MAX,
    ensures
        forall|k: int, m: int| 0 <= k < m < r@.len() ==> r@[k].0 < r@[m].0,
        forall|k: int| 0 <= k < r@.len() ==> covered_by(attrs@, #[trigger] r@[k].0),
        forall|i: int| 0 <= i < attrs@.len() ==> listed_in(r@, #[trigger] attrs@[i].binding),
        forall|k: int| 0 <= k < r@.len() ==> #[trigger] r@[k].1 == spec_stride(attrs@, r@[k].0, stride),
{
    let n = attrs.len();
    // Distinct bindings, ascending.
    let mut bindings: Vec<u32> = Vec::new();
    let mut i: usize = 0;
    while i < n
        invariant
            n == attrs@.len(),
            i <= n,
            increasing(bindings@),
            forall|x: u32| #[trigger] bindings@.contains(x) <==> exists|j: int| 0 <= j < i && attrs@[j].binding == x,
        decreases n - i,
    {
        let b = attrs[i].binding;
        insert_sorted(&mut bindings, b);
        proof {
            assert forall|x: u32| #[trigger] bindings@.contains(x) implies exists|j: int| 0 <= j < i + 1 && attrs@[j].binding == x by {
                if x == b {
                    assert(attrs@[i as int].binding == x);
                }
            }
        }
        i = i + 1;
    }
    // Sum per binding.
    let mut r: Vec<(u32, u32)> = Vec::new();
    let mut k: usize = 0;
    while k < bindings.len()
        invariant
            n == attrs@.len(),
            increasing(bindings@),
            forall|x: u32| #[trigger] bindings@.contains(x) <==> exists|j: int| 0 <= j < n && attrs@[j].binding == x,
            forall|i: int|
                0 <= i < attrs@.len() ==> binding_total(attrs@, #[trigger] attrs@[i].binding, attrs@.len() as int)
                    <= u32::MAX,
            k <= bindings@.len(),
            r@.len() == k,
            forall|a: int| 0 <= a < k ==> #[trigger] r@[a].0 == bindings@[a],
            forall|a: int| 0 <= a < k ==> #[trigger] r@[a].1 == spec_stride(attrs@, r@[a].0, stride),
        decreases bindings@.len() - k,
    {
        let b = bindings[k];
        assert(bindings@.contains(b));
        let total = binding_sum(attrs, b);
        let value = match stride {
            Some(st) => st,
            None => total,
        };
        r.push((b, value));
        k = k + 1;
    }
    proof {
        lemma_strides_cover(bindings@, r@, attrs@);
    }
    r
}

proof fn lemma_strides_cover(bindings: Seq<u32>, r: Seq<(u32, u32)>, attrs: Seq<VertexAttrRec>)
    requires
        forall|x: u32| #[trigger] bindings.contains(x) <==> exists|j: int| 0 <= j < attrs.len() && attrs[j].binding == x,
        r.len() == bindings.len(),
        forall|a: int| 0 <= a < r.len() ==> #[trigger] r[a].0 == bindings[a],
    ensures
        forall|k: int| 0 <= k < r.len() ==> covered_by(attrs, #[trigger] r[k].0),
        forall|i: int| 0 <= i < attrs.len() ==> listed_in(r, #[trigger] attrs[i].binding),
{
    assert forall|k: int| 0 <= k < r.len() implies covered_by(attrs, #[trigger] r[k].0) by {
        assert(r[k].0 == bindings[k]);
        assert(bindings.contains(bindings[k]));
    }
    assert forall|i: int| 0 <= i < attrs.len() implies listed_in(r, #[trigger] attrs[i].binding) by {
        assert(bindings.contains(attrs[i].binding));
        let a = choose|a: int| 0 <= a < bindings.len() && bindings[a] == attrs[i].binding;
        assert(r[a].0 == bindings[a]);
    }
}

/// Some record uses vertex buffer `binding`.
pub open spec fn covered_by(attrs: Seq<VertexAttrRec>, binding: u32) -> bool {
    exists|i: int| 0 <= i < attrs.len() && attrs[i].binding == binding
}

/// Some entry of a stride list is for vertex buffer `binding`.
pub open spec fn listed_in(r: Seq<(u32, u32)>, binding: u32) -> bool {
    exists|k: int| 0 <= k < r.len() && r[k].0 == binding
}

fn binding_sum(attrs: &[VertexAttrRec], b: u32) -> (total: u32)
    requires
        exists|j: int| 0 <= j < attrs@.len() && attrs@[j].binding == b,
        forall|i: int|
            0 <= i < attrs@.len() ==> binding_total(attrs@, #[trigger] attrs@[i].binding, attrs@.len() as int)
                <= u32::MAX,
    ensures
        total as nat == binding_total(attrs@, b, attrs@.len() as int),
{
    let n = attrs.len();
    let ghost w = choose|j: int| 0 <= j < attrs@.len() && attrs@[j].binding == b;
    assert(binding_total(attrs@, attrs@[w].binding, n as int) <= u32::MAX);
    let mut total: u32 = 0;
    let mut j: usize = 0;
    while j < n
        invariant
            n == attrs@.len(),
            binding_total(attrs@, b, n as int) <= u32::MAX,
            j <= n,
            total as nat == binding_total(attrs@, b, j as int),
        decreases n - j,
    {
        proof {
            lemma_binding_total_mono(attrs@, b, j + 1, n as int);
        }
        if attrs[j].binding == b {
            total = total + attrs[j].size;
        }
        j = j + 1;
    }
    total
}

} // verus!
