//! Barrier requirement hints for a system: for each GPU resource it reads or writes, the
//! stages and access masks between which a pipeline barrier belongs. The stage and access
//! masks are printed as ash prints them.
use vstd::prelude::*;
use crate::resources::GpuResourceKind;

verus! {

/// Synchronization metadata of one GPU resource: the name of the type it holds, whether
/// it is a buffer or an image, and its stage and access masks as raw Vulkan bits.
pub struct GpuResourceMeta {
    pub type_id: std::any::TypeId,
    pub held_type: &'static str,
    pub resource_kind: GpuResourceKind,
    pub read_stage: u32,
    pub write_stage: u32,
    pub read_access: u32,
    pub write_access: u32,
}

#[verifier::external_type_specification]
#[verifier::external_body]
pub struct ExTypeId(std::any::TypeId);

/// The `Debug` text of `ash::vk::PipelineStageFlags` holding `bits`.
pub uninterp spec fn stage_flags_debug(bits: u32) -> Seq<char>;

/// The `Debug` text of `ash::vk::AccessFlags` holding `bits`.
pub uninterp spec fn access_flags_debug(bits: u32) -> Seq<char>;

/// Formats `ash::vk::PipelineStageFlags::from_raw(bits)` with ash's `Debug` impl, which
/// writes the names of the known flags set in `bits` joined by `" | "`, then any bits
/// left over in binary. The contract names that text as a function of `bits` alone.
#[verifier::external_body]
fn stage_flags_text(bits: u32) -> (r: String)
    ensures
        r@ == stage_flags_debug(bits),
{
    format!("{:?}", ash::vk::PipelineStageFlags::from_raw(bits))
}

/// Formats `ash::vk::AccessFlags::from_raw(bits)` with ash's `Debug` impl, which writes
/// the names of the known flags set in `bits` joined by `" | "`, then any bits left over
/// in binary. The contract names that text as a function of `bits` alone.
#[verifier::external_body]
fn access_flags_text(bits: u32) -> (r: String)
    ensures
        r@ == access_flags_debug(bits),
{
    format!("{:?}", ash::vk::AccessFlags::from_raw(bits))
}

/// The name of a resource kind, as its `Debug` form prints it.
pub open spec fn kind_text(k: GpuResourceKind) -> Seq<char> {
    match k {
        GpuResourceKind::Buffer => "Buffer"@,
        GpuResourceKind::Image => "Image"@,
    }
}

fn kind_str(k: &GpuResourceKind) -> (r: &'static str)
    ensures
        r@ == kind_text(*k),
{
    match k {
        GpuResourceKind::Buffer => "Buffer",
        GpuResourceKind::Image => "Image",
    }
}

pub open spec fn report_header() -> Seq<char> {
    "GPU Barrier Requirements:\n\n"@
}

pub open spec fn nothing_accessed() -> Seq<char> {
    "  (no GPU resources accessed)\n"@
}

/// The hint for a resource that is read: its type and kind, then the stages and access
/// masks from its writer to its reader, and the barrier to insert.
pub open spec fn read_hint(m: GpuResourceMeta) -> Seq<char> {
    "  READ: "@ + m.held_type@ + "\nResource: "@ + kind_text(m.resource_kind) + "\n"@
        + "    Stage: "@ + stage_flags_debug(m.write_stage) + " \u{2192} "@
        + stage_flags_debug(m.read_stage) + "\nAccess: "@ + access_flags_debug(m.write_access)
        + " \u{2192} "@ + access_flags_debug(m.read_access)
        + "\nAction: Insert buffer/image barrier before read\n\n"@
}

/// The hint for a resource that is written: its type and kind, its write stage and
/// access mask, and for an image a note that a layout transition may be due.
pub open spec fn write_hint(m: GpuResourceMeta) -> Seq<char> {
    "  WRITE: "@ + m.held_type@ + "\nResource: "@ + kind_text(m.resource_kind) + "\n"@
        + "    Stage: "@ + stage_flags_debug(m.write_stage) + "\nAccess: "@
        + access_flags_debug(m.write_access) + "\n"@ + (if m.resource_kind
        == GpuResourceKind::Image {
        "    Layout transition may be required\n"@
    } else {
        Seq::empty()
    }) + "\n"@
}

pub open spec fn read_hints(ms: Seq<GpuResourceMeta>) -> Seq<char>
    decreases ms.len(),
{
    if ms.len() == 0 {
        Seq::empty()
    } else {
        read_hints(ms.drop_last()) + read_hint(ms.last())
    }
}

pub open spec fn write_hints(ms: Seq<GpuResourceMeta>) -> Seq<char>
    decreases ms.len(),
{
    if ms.len() == 0 {
        Seq::empty()
    } else {
        write_hints(ms.drop_last()) + write_hint(ms.last())
    }
}

/// The whole report: a header, then a line saying that nothing is accessed, or the hints
/// for every read resource followed by those for every written one, in order.
pub open spec fn spec_barrier_report(
    reads: Seq<GpuResourceMeta>,
    writes: Seq<GpuResourceMeta>,
) -> Seq<char> {
    report_header() + if reads.len() == 0 && writes.len() == 0 {
        nothing_accessed()
    } else {
        read_hints(reads) + write_hints(writes)
    }
}

fn append_read_hint(s: &mut String, m: &GpuResourceMeta)
    ensures
        final(s)@ == old(s)@ + read_hint(*m),
{
    let write_stage = stage_flags_text(m.write_stage);
    let read_stage = stage_flags_text(m.read_stage);
    let write_access = access_flags_text(m.write_access);
    let read_access = access_flags_text(m.read_access);
    s.append("  READ: ");
    s.append(m.held_type);
    s.append("\nResource: ");
    s.append(kind_str(&m.resource_kind));
    s.append("\n");
    s.append("    Stage: ");
    s.append(write_stage.as_str());
    s.append(" \u{2192} ");
    s.append(read_stage.as_str());
    s.append("\nAccess: ");
    s.append(write_access.as_str());
    s.append(" \u{2192} ");
    s.append(read_access.as_str());
    s.append("\nAction: Insert buffer/image barrier before read\n\n");
    assert(s@ =~= old(s)@ + read_hint(*m));
}

fn append_write_hint(s: &mut String, m: &GpuResourceMeta)
    ensures
        final(s)@ == old(s)@ + write_hint(*m),
{
    let write_stage = stage_flags_text(m.write_stage);
    let write_access = access_flags_text(m.write_access);
    s.append("  WRITE: ");
    s.append(m.held_type);
    s.append("\nResource: ");
    s.append(kind_str(&m.resource_kind));
    s.append("\n");
    s.append("    Stage: ");
    s.append(write_stage.as_str());
    s.append("\nAccess: ");
    s.append(write_access.as_str());
    s.append("\n");
    let ghost before_note = s@;
    let is_image = match m.resource_kind {
        GpuResourceKind::Image => true,
        GpuResourceKind::Buffer => false,
    };
    if is_image {
        s.append("    Layout transition may be required\n");
    } else {
        assert(s@ =~= before_note + Seq::<char>::empty());
    }
    s.append("\n");
    assert(s@ =~= old(s)@ + write_hint(*m));
}

/// Builds the barrier report for the resources a system reads and writes.
pub fn barrier_report(reads: &[GpuResourceMeta], writes: &[GpuResourceMeta]) -> (r: String)
    ensures
        r@ == spec_barrier_report(reads@, writes@),
{
    let mut hints = String::from_str("GPU Barrier Requirements:\n\n");
    if reads.len() == 0 && writes.len() == 0 {
        hints.append("  (no GPU resources accessed)\n");
        return hints;
    }
    let mut i: usize = 0;
    while i < reads.len()
        invariant
            i <= reads@.len(),
            hints@ == report_header() + read_hints(reads@.take(i as int)),
        decreases reads@.len() - i,
    {
        let ghost before = hints@;
        append_read_hint(&mut hints, &reads[i]);
        proof {
            assert(reads@.take(i + 1).drop_last() =~= reads@.take(i as int));
            assert(hints@ =~= report_header() + read_hints(reads@.take(i + 1)));
        }
        i = i + 1;
    }
    assert(reads@.take(reads@.len() as int) =~= reads@);
    let ghost after_reads = hints@;
    let mut j: usize = 0;
    while j < writes.len()
        invariant
            j <= writes@.len(),
            hints@ == after_reads + write_hints(writes@.take(j as int)),
        decreases writes@.len() - j,
    {
        append_write_hint(&mut hints, &writes[j]);
        proof {
            assert(writes@.take(j + 1).drop_last() =~= writes@.take(j as int));
            assert(hints@ =~= after_reads + write_hints(writes@.take(j + 1)));
        }
        j = j + 1;
    }
    assert(writes@.take(writes@.len() as int) =~= writes@);
    assert(hints@ =~= spec_barrier_report(reads@, writes@));
    hints
}

/// Systems that touch GPU resources: what they read and write, and the barrier report
/// built from both.
pub trait GpuResourceAccess {
    /// The resources read; none unless the system says otherwise.
    fn gpu_reads() -> (r: &'static [GpuResourceMeta])
        default_ensures
            r@ == Seq::<GpuResourceMeta>::empty(),
    {
        &[]
    }

    /// The resources written; none unless the system says otherwise.
    fn gpu_writes() -> (r: &'static [GpuResourceMeta])
        default_ensures
            r@ == Seq::<GpuResourceMeta>::empty(),
    {
        &[]
    }

    /// The barrier report of what `gpu_reads` and `gpu_writes` give.
    fn barrier_requirements() -> (r: String)
        default_ensures
            exists|reads: &'static [GpuResourceMeta], writes: &'static [GpuResourceMeta]|
                #![trigger call_ensures(Self::gpu_reads, (), reads), call_ensures(Self::gpu_writes, (), writes)]
                call_ensures(Self::gpu_reads, (), reads) && call_ensures(Self::gpu_writes, (), writes)
                    && r@ == spec_barrier_report(reads@, writes@),
    {
        barrier_report(Self::gpu_reads(), Self::gpu_writes())
    }
}

} // verus!
