//! Render graph passes and resource planning: pass kinds, attachment usage masks, the
//! `size = ".."` forms of a pass output, and the planner that turns the passes' outputs
//! into a sorted list of distinct resources and a per-pass list of attachments.
use vstd::prelude::*;
use crate::engine::EngineConfig;
use crate::pipeline::{ColorTargetDesc, DepthTargetDesc, PipelineDesc};
use crate::text::{
    str_eq, chars_of, decimal_text, eq_lit, has_word, has_word_exec, list_separators, list_seps, lower_eq_lit,
    lower_seq, norm_pieces, normalized_pieces, split, split_seq, string_of, trim, trim_seq,
};

verus! {

#[derive(Clone, Copy, Debug, PartialEq, Eq, Structural)]
pub enum PassKind {
    Graphics,
    Compute,
}

/// The pass kind a `kind = ".."` value names, case-insensitively.
pub open spec fn spec_pass_kind(s: Seq<char>) -> Option<PassKind> {
    if lower_seq(s) == "graphics"@ {
        Some(PassKind::Graphics)
    } else if lower_seq(s) == "compute"@ {
        Some(PassKind::Compute)
    } else {
        None
    }
}

/// Reads a pass kind; `None` for anything but `graphics` or `compute`.
pub fn parse_pass_kind(s: &str) -> (r: Option<PassKind>)
    ensures
        r == spec_pass_kind(s@),
{
    let c = chars_of(s);
    if lower_eq_lit(c.as_slice(), "graphics") {
        Some(PassKind::Graphics)
    } else if lower_eq_lit(c.as_slice(), "compute") {
        Some(PassKind::Compute)
    } else {
        None
    }
}

// ---------------------------------------------------------------------------
// Usage masks
// ---------------------------------------------------------------------------

/// How an attachment is used, as a set of flag bits.
#[derive(Clone, Copy, Debug, PartialEq, Eq, Structural)]
pub struct UsageMask {
    pub bits: u32,
}

pub const USAGE_COLOR: u32 = 1;
pub const USAGE_DEPTH: u32 = 2;
pub const USAGE_SAMPLED: u32 = 4;
pub const USAGE_STORAGE: u32 = 8;
pub const USAGE_TRANSFER_SRC: u32 = 16;
pub const USAGE_TRANSFER_DST: u32 = 32;

impl UsageMask {
    pub fn empty() -> (r: UsageMask)
        ensures
            r.bits == 0,
    {
        UsageMask { bits: 0 }
    }

    /// The flags of both masks.
    pub fn union(self, other: UsageMask) -> (r: UsageMask)
        ensures
            r.bits == self.bits | other.bits,
    {
        UsageMask { bits: self.bits | other.bits }
    }

    /// Whether every flag of `other` is set in `self`.
    pub fn contains(self, other: UsageMask) -> (r: bool)
        ensures
            r == (self.bits & other.bits == other.bits),
    {
        self.bits & other.bits == other.bits
    }

    pub fn is_empty(self) -> (r: bool)
        ensures
            r == (self.bits == 0),
    {
        self.bits == 0
    }
}

/// The flag a usage word names (lower-cased, trimmed); unknown words name none.
pub open spec fn usage_flag(w: Seq<char>) -> u32 {
    if w == "color"@ {
        USAGE_COLOR
    } else if w == "depth"@ {
        USAGE_DEPTH
    } else if w == "sampled"@ {
        USAGE_SAMPLED
    } else if w == "storage"@ {
        USAGE_STORAGE
    } else if w == "transfer_src"@ || w == "xfer_src"@ {
        USAGE_TRANSFER_SRC
    } else if w == "transfer_dst"@ || w == "xfer_dst"@ {
        USAGE_TRANSFER_DST
    } else {
        0
    }
}

/// The union of the flags of the first `m` words.
pub open spec fn usage_bits(words: Seq<Seq<char>>, m: int) -> u32
    decreases m,
{
    if m <= 0 {
        0
    } else {
        usage_bits(words, m - 1) | usage_flag(words[m - 1])
    }
}

/// The usage mask of a `usage = "color|sampled"` value: words separated by `|`, `,` or
/// spaces, case-insensitive; unknown words add nothing.
pub open spec fn spec_usage(s: Seq<char>) -> u32 {
    let words = norm_pieces(s, list_seps());
    usage_bits(words, words.len() as int)
}

fn usage_flag_exec(w: &[char]) -> (r: u32)
    ensures
        r == usage_flag(w@),
{
    if eq_lit(w, "color") {
        USAGE_COLOR
    } else if eq_lit(w, "depth") {
        USAGE_DEPTH
    } else if eq_lit(w, "sampled") {
        USAGE_SAMPLED
    } else if eq_lit(w, "storage") {
        USAGE_STORAGE
    } else if eq_lit(w, "transfer_src") || eq_lit(w, "xfer_src") {
        USAGE_TRANSFER_SRC
    } else if eq_lit(w, "transfer_dst") || eq_lit(w, "xfer_dst") {
        USAGE_TRANSFER_DST
    } else {
        0
    }
}

/// Reads a usage mask.
pub fn parse_usage(s: &str) -> (r: UsageMask)
    ensures
        r.bits == spec_usage(s@),
{
    let c = chars_of(s);
    let seps = list_separators();
    let words = normalized_pieces(c.as_slice(), seps.as_slice());
    let ghost ws = norm_pieces(s@, list_seps());
    let mut bits: u32 = 0;
    let mut i: usize = 0;
    while i < words.len()
        invariant
            i <= words@.len(),
            words@.len() == ws.len(),
            ws == norm_pieces(s@, list_seps()),
            forall|k: int| 0 <= k < words@.len() ==> #[trigger] words@[k]@ == ws[k],
            bits == usage_bits(ws, i as int),
        decreases words@.len() - i,
    {
        let f = usage_flag_exec(words[i].as_slice());
        bits = bits | f;
        i = i + 1;
    }
    UsageMask { bits }
}

/// Whether a usage value declares a depth attachment: one of its words is `depth`.
pub fn usage_is_depth(s: &str) -> (r: bool)
    ensures
        r == has_word(s@, list_seps(), "depth"@),
{
    let c = chars_of(s);
    let seps = list_separators();
    let words = normalized_pieces(c.as_slice(), seps.as_slice());
    has_word_exec(&words, "depth", Ghost(s@), Ghost(list_seps()))
}

// ---------------------------------------------------------------------------
// Size forms
// ---------------------------------------------------------------------------

/// The form of a `size = ".."` value: the swapchain's size, an absolute size, a size
/// relative to the swapchain (its two factors as text), or none of these.
#[derive(Clone, Debug)]
pub enum SizeForm {
    Swapchain,
    Abs { width: u32, height: u32 },
    Rel { sx: Vec<char>, sy: Vec<char> },
    Unknown,
}

/// `s` starts with `p` and ends with `q`, without overlap.
pub open spec fn wrapped(s: Seq<char>, p: Seq<char>, q: Seq<char>) -> bool {
    &&& s.len() >= p.len() + q.len()
    &&& s.subrange(0, p.len() as int) == p
    &&& s.subrange(s.len() - q.len(), s.len() as int) == q
}

/// What is between `p` and `q`.
pub open spec fn inner(s: Seq<char>, p: Seq<char>, q: Seq<char>) -> Seq<char> {
    s.subrange(p.len() as int, s.len() - q.len())
}

/// The two trimmed comma-separated parts of `f(..)`, when `l` is that with exactly two.
pub open spec fn call_parts(l: Seq<char>, f: Seq<char>) -> Option<(Seq<char>, Seq<char>)> {
    if wrapped(l, f, ")"@) {
        let ps = split_seq(inner(l, f, ")"@), seq![',']);
        if ps.len() == 2 {
            Some((trim_seq(ps[0]), trim_seq(ps[1])))
        } else {
            None
        }
    } else {
        None
    }
}

/// A size value, trimmed and lower-cased.
pub open spec fn size_text(s: Seq<char>) -> Seq<char> {
    lower_seq(trim_seq(s))
}

/// The absolute size `abs(w,h)` gives, when both parts are `u32`s.
pub open spec fn abs_size(l: Seq<char>) -> Option<(u32, u32)> {
    match call_parts(l, "abs("@) {
        Some((w, h)) => match (crate::text::u32_of(w), crate::text::u32_of(h)) {
            (Some(x), Some(y)) => Some((x, y)),
            _ => None,
        },
        None => None,
    }
}

fn slice_of(s: &[char], lo: usize, hi: usize) -> (r: Vec<char>)
    requires
        lo <= hi <= s@.len(),
    ensures
        r@ == s@.subrange(lo as int, hi as int),
{
    let mut r: Vec<char> = Vec::new();
    let mut i: usize = lo;
    while i < hi
        invariant
            lo <= i <= hi,
            hi <= s@.len(),
            r@ == s@.subrange(lo as int, i as int),
        decreases hi - i,
    {
        r.push(s[i]);
        assert(s@.subrange(lo as int, i + 1) =~= s@.subrange(lo as int, i as int).push(s@[i as int]));
        i = i + 1;
    }
    r
}

fn lower_chars(s: &[char]) -> (r: Vec<char>)
    ensures
        r@ == lower_seq(s@),
{
    let mut r: Vec<char> = Vec::new();
    let mut i: usize = 0;
    while i < s.len()
        invariant
            i <= s@.len(),
            r@ == lower_seq(s@.take(i as int)),
        decreases s@.len() - i,
    {
        r.push(crate::text::to_lower(s[i]));
        assert(lower_seq(s@.take(i + 1)) =~= lower_seq(s@.take(i as int)).push(crate::text::lower_char(s@[i as int])));
        i = i + 1;
    }
    assert(s@.take(s@.len() as int) =~= s@);
    r
}

fn is_wrapped(l: &[char], f: &str) -> (r: bool)
    ensures
        r == wrapped(l@, f@, ")"@),
{
    let fc = chars_of(f);
    let close = chars_of(")");
    let n = l.len();
    if n < fc.len() || n - fc.len() < close.len() {
        return false;
    }
    let head = slice_of(l, 0, fc.len());
    let tail = slice_of(l, n - close.len(), n);
    crate::text::chars_eq(head.as_slice(), fc.as_slice()) && crate::text::chars_eq(tail.as_slice(), close.as_slice())
}

fn parts_of(l: &[char], f: &str) -> (r: Option<(Vec<char>, Vec<char>)>)
    ensures
        match call_parts(l@, f@) {
            Some((a, b)) => r matches Some((x, y)) && x@ == a && y@ == b,
            None => r is None,
        },
{
    if !is_wrapped(l, f) {
        return None;
    }
    let fc = chars_of(f);
    let close = chars_of(")");
    let mid = slice_of(l, fc.len(), l.len() - close.len());
    let mut comma: Vec<char> = Vec::new();
    comma.push(',');
    assert(comma@ =~= seq![',']);
    let ps = split(mid.as_slice(), comma.as_slice());
    if ps.len() == 2 {
        Some((trim(ps[0].as_slice()), trim(ps[1].as_slice())))
    } else {
        None
    }
}

/// Reads the form of a `size = ".."` value: `swapchain`, `rel(x, y)` (factors kept as
/// text), `abs(w, h)`, case-insensitively and trimmed; anything else is `Unknown`.
pub fn size_form(s: &str) -> (r: SizeForm)
    ensures
        size_text(s@) == "swapchain"@ ==> r is Swapchain,
        size_text(s@) != "swapchain"@ ==> match call_parts(size_text(s@), "rel("@) {
            Some((x, y)) => r matches SizeForm::Rel { sx, sy } && sx@ == x && sy@ == y,
            None => match abs_size(size_text(s@)) {
                Some((w, h)) => r matches SizeForm::Abs { width, height } && width == w && height == h,
                None => r is Unknown,
            },
        },
{
    let c = chars_of(s);
    let t = trim(c.as_slice());
    let l = lower_chars(t.as_slice());
    if eq_lit(l.as_slice(), "swapchain") {
        return SizeForm::Swapchain;
    }
    if let Some((x, y)) = parts_of(l.as_slice(), "rel(") {
        return SizeForm::Rel { sx: x, sy: y };
    }
    if let Some((w, h)) = parts_of(l.as_slice(), "abs(") {
        match (crate::text::u32_text(w.as_slice()), crate::text::u32_text(h.as_slice())) {
            (Some(x), Some(y)) => {
                return SizeForm::Abs { width: x, height: y };
            },
            _ => {},
        }
    }
    SizeForm::Unknown
}

// ---------------------------------------------------------------------------
// Ordering names
// ---------------------------------------------------------------------------

/// `a` sorts before `b` when compared from position `i` on, character by character
/// (`str`'s order: by code point, a prefix first).
pub open spec fn lt_from(a: Seq<char>, b: Seq<char>, i: int) -> bool
    decreases a.len() - i,
{
    if i >= a.len() {
        i < b.len()
    } else if i >= b.len() {
        false
    } else if a[i] != b[i] {
        (a[i] as u32) < (b[i] as u32)
    } else {
        lt_from(a, b, i + 1)
    }
}

/// `a` sorts before `b`.
pub open spec fn name_lt(a: Seq<char>, b: Seq<char>) -> bool {
    lt_from(a, b, 0)
}

proof fn lemma_lt_irrefl(a: Seq<char>, i: int)
    requires
        0 <= i,
    ensures
        !lt_from(a, a, i),
    decreases a.len() - i,
{
    if i < a.len() {
        lemma_lt_irrefl(a, i + 1);
    }
}

proof fn lemma_lt_trans(a: Seq<char>, b: Seq<char>, c: Seq<char>, i: int)
    requires
        0 <= i,
        lt_from(a, b, i),
        lt_from(b, c, i),
    ensures
        lt_from(a, c, i),
    decreases a.len() - i,
{
    if i < a.len() && i < b.len() && i < c.len() && a[i] == b[i] && b[i] == c[i] {
        lemma_lt_trans(a, b, c, i + 1);
    }
}

proof fn lemma_lt_total(a: Seq<char>, b: Seq<char>, i: int)
    requires
        0 <= i <= a.len(),
        i <= b.len(),
        !lt_from(a, b, i),
        !lt_from(b, a, i),
    ensures
        a.subrange(i, a.len() as int) == b.subrange(i, b.len() as int),
    decreases a.len() - i,
{
    if i < a.len() && i < b.len() && a[i] == b[i] {
        lemma_lt_total(a, b, i + 1);
        assert(a.subrange(i, a.len() as int) =~= seq![a[i]] + a.subrange(i + 1, a.len() as int));
        assert(b.subrange(i, b.len() as int) =~= seq![b[i]] + b.subrange(i + 1, b.len() as int));
    } else if i < a.len() && i < b.len() {
        lemma_char_code(a[i], b[i]);
    } else {
        assert(a.subrange(i, a.len() as int) =~= b.subrange(i, b.len() as int));
    }
}

proof fn lemma_char_code(c: char, d: char)
    requires
        (c as u32) == (d as u32),
    ensures
        c == d,
{
}

/// Two different names are ordered one way or the other.
proof fn lemma_name_total(a: Seq<char>, b: Seq<char>)
    requires
        a != b,
    ensures
        name_lt(a, b) || name_lt(b, a),
{
    if !name_lt(a, b) && !name_lt(b, a) {
        lemma_lt_total(a, b, 0);
        assert(a =~= a.subrange(0, a.len() as int));
        assert(b =~= b.subrange(0, b.len() as int));
    }
}

/// Whether `a` sorts before `b`.
pub fn name_less(a: &[char], b: &[char]) -> (r: bool)
    ensures
        r == name_lt(a@, b@),
{
    let mut i: usize = 0;
    while i < a.len() && i < b.len() && a[i] == b[i]
        invariant
            i <= a@.len(),
            i <= b@.len(),
            lt_from(a@, b@, 0) == lt_from(a@, b@, i as int),
        decreases a@.len() - i,
    {
        i = i + 1;
    }
    if i >= a.len() {
        i < b.len()
    } else if i >= b.len() {
        false
    } else {
        (a[i] as u32) < (b[i] as u32)
    }
}

// ---------------------------------------------------------------------------
// Resource planning
// ---------------------------------------------------------------------------

/// An output a pass declares, as the planner reads it.
#[derive(Clone, Debug)]
pub struct OutputRef {
    pub name: String,
    pub is_depth: bool,
}

/// What the planner reads of a pass: its name and either its named outputs or its legacy
/// color targets (how many) and depth target (whether there is one).
#[derive(Clone, Debug)]
pub struct PassShape {
    pub name: String,
    pub outputs: Option<Vec<OutputRef>>,
    pub legacy_colors: usize,
    pub legacy_depth: bool,
}

/// Where a planned resource was first declared.
#[derive(Clone, Copy, Debug, PartialEq, Eq, Structural)]
pub enum ResourceSource {
    Output { pass: usize, index: usize },
    LegacyColor { pass: usize, index: usize },
    LegacyDepth { pass: usize },
}

#[derive(Clone, Debug)]
pub struct PlannedResource {
    pub name: String,
    pub source: ResourceSource,
}

/// The attachments of one pass, by resource name.
#[derive(Clone, Debug)]
pub struct PassPlan {
    pub name: String,
    pub colors: Vec<String>,
    pub depth: Option<String>,
}

/// The name synthesized for legacy color target `i` of pass `p`: `{p}_col{i}`.
pub open spec fn legacy_color_name(p: Seq<char>, i: int) -> Seq<char> {
    p + "_col"@ + decimal_text(i as nat)
}

/// The name synthesized for the legacy depth target of pass `p`: `{p}_depth`.
pub open spec fn legacy_depth_name(p: Seq<char>) -> Seq<char> {
    p + "_depth"@
}

/// The resources pass `p` declares, in order, each with where it comes from.
pub open spec fn pass_candidates(ps: PassShape, p: usize) -> Seq<(Seq<char>, ResourceSource)> {
    match ps.outputs {
        Some(outs) => Seq::new(
            outs@.len(),
            |i: int| (outs@[i].name@, ResourceSource::Output { pass: p, index: i as usize }),
        ),
        None => Seq::new(
            ps.legacy_colors as nat,
            |i: int| (legacy_color_name(ps.name@, i), ResourceSource::LegacyColor { pass: p, index: i as usize }),
        ) + if ps.legacy_depth {
            seq![(legacy_depth_name(ps.name@), ResourceSource::LegacyDepth { pass: p })]
        } else {
            Seq::empty()
        },
    }
}

/// The resources the first `m` passes declare, in order.
pub open spec fn candidates(passes: Seq<PassShape>, m: int) -> Seq<(Seq<char>, ResourceSource)>
    decreases m,
{
    if m <= 0 {
        Seq::empty()
    } else {
        candidates(passes, m - 1) + pass_candidates(passes[m - 1], (m - 1) as usize)
    }
}

/// The names of the non-depth outputs among the first `m`, in order.
pub open spec fn color_names(outs: Seq<OutputRef>, m: int) -> Seq<Seq<char>>
    decreases m,
{
    if m <= 0 {
        Seq::empty()
    } else if outs[m - 1].is_depth {
        color_names(outs, m - 1)
    } else {
        color_names(outs, m - 1).push(outs[m - 1].name@)
    }
}

/// The color attachments of a pass: its non-depth outputs in order, or its legacy
/// color targets.
pub open spec fn pass_colors(ps: PassShape) -> Seq<Seq<char>> {
    match ps.outputs {
        Some(outs) => color_names(outs@, outs@.len() as int),
        None => Seq::new(ps.legacy_colors as nat, |i: int| legacy_color_name(ps.name@, i)),
    }
}

/// The last depth output among the first `m` outputs.
pub open spec fn last_depth(outs: Seq<OutputRef>, m: int) -> Option<Seq<char>>
    decreases m,
{
    if m <= 0 {
        None
    } else if outs[m - 1].is_depth {
        Some(outs[m - 1].name@)
    } else {
        last_depth(outs, m - 1)
    }
}

/// The depth attachment of a pass: its last depth output, or its legacy depth target.
pub open spec fn pass_depth(ps: PassShape) -> Option<Seq<char>> {
    match ps.outputs {
        Some(outs) => last_depth(outs@, outs@.len() as int),
        None => if ps.legacy_depth {
            Some(legacy_depth_name(ps.name@))
        } else {
            None
        },
    }
}

/// `res` lists distinct names in ascending order, every name that `cands` declares, each
/// with the source of its first declaration.
pub open spec fn plan_inv(res: Seq<PlannedResource>, cands: Seq<(Seq<char>, ResourceSource)>) -> bool {
    &&& forall|x: int, y: int| 0 <= x < y < res.len() ==> name_lt(#[trigger] res[x].name@, #[trigger] res[y].name@)
    &&& forall|k: int| 0 <= k < cands.len() ==> #[trigger] planned(res, cands[k].0)
    &&& forall|x: int| 0 <= x < res.len() ==> #[trigger] first_declared(cands, res[x].name@, res[x].source)
}

/// Some planned resource has this name.
pub open spec fn planned(res: Seq<PlannedResource>, name: Seq<char>) -> bool {
    exists|x: int| 0 <= x < res.len() && res[x].name@ == name
}

/// `(name, src)` is the first declaration of `name` in `cands`.
pub open spec fn first_declared(cands: Seq<(Seq<char>, ResourceSource)>, name: Seq<char>, src: ResourceSource) -> bool {
    exists|k: int|
        0 <= k < cands.len() && cands[k] == (name, src) && forall|j: int| 0 <= j < k ==> (#[trigger] cands[j]).0 != name
}

/// Adds one declaration to the plan: a new name is inserted in order, a known one is
/// left as first declared.
fn add_resource(res: &mut Vec<PlannedResource>, name: String, src: ResourceSource, Ghost(cands): Ghost<Seq<(Seq<char>, ResourceSource)>>)
    requires
        plan_inv(old(res)@, cands),
    ensures
        plan_inv(final(res)@, cands.push((name@, src))),
{
    let nc = chars_of(name.as_str());
    let mut pos: usize = 0;
    while pos < res.len()
        invariant
            pos <= res@.len(),
            res@ == old(res)@,
            nc@ == name@,
            forall|x: int| 0 <= x < pos ==> name_lt(#[trigger] res@[x].name@, name@),
        ensures
            pos <= res@.len(),
            res@ == old(res)@,
            forall|x: int| 0 <= x < pos ==> name_lt(#[trigger] res@[x].name@, name@),
            pos < res@.len() ==> !name_lt(res@[pos as int].name@, name@),
        decreases res@.len() - pos,
    {
        let rc = chars_of(res[pos].name.as_str());
        if !name_less(rc.as_slice(), nc.as_slice()) {
            break;
        }
        pos = pos + 1;
    }
    let ghost c2 = cands.push((name@, src));
    let ghost r0 = res@;
    if pos < res.len() {
        let rc = chars_of(res[pos].name.as_str());
        if crate::text::chars_eq(rc.as_slice(), nc.as_slice()) {
            proof {
                assert(planned(r0, name@)) by {
                    assert(r0[pos as int].name@ == name@);
                }
                assert forall|k: int| 0 <= k < c2.len() implies #[trigger] planned(r0, c2[k].0) by {
                    if k < cands.len() {
                        assert(c2[k] == cands[k]);
                    }
                }
                assert forall|x: int| 0 <= x < r0.len() implies #[trigger] first_declared(c2, r0[x].name@, r0[x].source) by {
                    assert(first_declared(cands, r0[x].name@, r0[x].source));
                    let k = choose|k: int|
                        0 <= k < cands.len() && cands[k] == (r0[x].name@, r0[x].source) && forall|j: int|
                            0 <= j < k ==> (#[trigger] cands[j]).0 != r0[x].name@;
                    assert(c2[k] == cands[k]);
                    assert forall|j: int| 0 <= j < k implies (#[trigger] c2[j]).0 != r0[x].name@ by {
                        assert(c2[j] == cands[j]);
                    }
                }
            }
            return;
        }
    }
    proof {
        // the name is not planned yet
        if pos < r0.len() {
            assert(!name_lt(r0[pos as int].name@, name@));
            assert(r0[pos as int].name@ != name@);
            lemma_name_total(r0[pos as int].name@, name@);
        }
        assert forall|x: int| 0 <= x < r0.len() implies r0[x].name@ != name@ by {
            if x < pos {
                assert(name_lt(r0[x].name@, name@));
                lemma_lt_irrefl(name@, 0);
            } else if x == pos {
            } else {
                assert(name_lt(r0[pos as int].name@, r0[x].name@));
                lemma_lt_trans(name@, r0[pos as int].name@, r0[x].name@, 0);
                lemma_lt_irrefl(name@, 0);
            }
        }
        assert(!planned(r0, name@));
    }
    let entry = PlannedResource { name, source: src };
    res.insert(pos, entry);
    proof {
        let r1 = res@;
        assert(r1 == r0.insert(pos as int, entry));
        assert(r1[pos as int].name@ == name@);
        assert forall|x: int, y: int| 0 <= x < y < r1.len() implies name_lt(#[trigger] r1[x].name@, #[trigger] r1[y].name@) by {
            if y < pos {
                assert(r1[x] == r0[x] && r1[y] == r0[y]);
            } else if y == pos {
                assert(r1[x] == r0[x]);
            } else if x == pos {
                assert(r1[y] == r0[y - 1]);
                if y - 1 > pos {
                    assert(name_lt(r0[pos as int].name@, r0[y - 1].name@));
                    lemma_lt_trans(name@, r0[pos as int].name@, r0[y - 1].name@, 0);
                }
            } else if x < pos {
                assert(r1[x] == r0[x] && r1[y] == r0[y - 1]);
                if pos < y - 1 || pos == y - 1 {
                    assert(name_lt(r0[x].name@, name@));
                    if pos < y - 1 {
                        assert(name_lt(r0[pos as int].name@, r0[y - 1].name@));
                        lemma_lt_trans(name@, r0[pos as int].name@, r0[y - 1].name@, 0);
                    }
                    lemma_lt_trans(r0[x].name@, name@, r0[y - 1].name@, 0);
                }
            } else {
                assert(r1[x] == r0[x - 1] && r1[y] == r0[y - 1]);
            }
        }
        assert forall|k: int| 0 <= k < c2.len() implies #[trigger] planned(r1, c2[k].0) by {
            if k < cands.len() {
                assert(c2[k] == cands[k]);
                assert(planned(r0, cands[k].0));
                let x = choose|x: int| 0 <= x < r0.len() && r0[x].name@ == cands[k].0;
                if x < pos {
                    assert(r1[x] == r0[x]);
                } else {
                    assert(r1[x + 1] == r0[x]);
                }
            } else {
                assert(r1[pos as int].name@ == c2[k].0);
            }
        }
        assert forall|x: int| 0 <= x < r1.len() implies #[trigger] first_declared(c2, r1[x].name@, r1[x].source) by {
            if x == pos {
                assert(c2[cands.len() as int] == (name@, src));
                assert forall|j: int| 0 <= j < cands.len() implies (#[trigger] c2[j]).0 != name@ by {
                    assert(c2[j] == cands[j]);
                    assert(planned(r0, cands[j].0));
                }
            } else {
                let x0 = if x < pos {
                    x
                } else {
                    x - 1
                };
                assert(r1[x] == r0[x0]);
                assert(first_declared(cands, r0[x0].name@, r0[x0].source));
                let k = choose|k: int|
                    0 <= k < cands.len() && cands[k] == (r0[x0].name@, r0[x0].source) && forall|j: int|
                        0 <= j < k ==> (#[trigger] cands[j]).0 != r0[x0].name@;
                assert(c2[k] == cands[k]);
                assert forall|j: int| 0 <= j < k implies (#[trigger] c2[j]).0 != r0[x0].name@ by {
                    assert(c2[j] == cands[j]);
                }
            }
        }
    }
}

/// The views of a list of strings.
pub open spec fn texts(v: Seq<String>) -> Seq<Seq<char>> {
    v.map_values(|x: String| x@)
}

pub open spec fn opt_text(v: Option<String>) -> Option<Seq<char>> {
    match v {
        Some(x) => Some(x@),
        None => None,
    }
}

fn digit_char(d: usize) -> (r: char)
    requires
        d < 10,
    ensures
        r == ((('0' as u32) + d) as char),
{
    match d {
        0 => '0',
        1 => '1',
        2 => '2',
        3 => '3',
        4 => '4',
        5 => '5',
        6 => '6',
        7 => '7',
        8 => '8',
        _ => '9',
    }
}

/// The decimal digits of `n`.
pub fn decimal_chars(n: usize) -> (r: Vec<char>)
    ensures
        r@ == decimal_text(n as nat),
    decreases n,
{
    if n < 10 {
        let mut v: Vec<char> = Vec::new();
        v.push(digit_char(n));
        assert(v@ =~= decimal_text(n as nat));
        v
    } else {
        let mut v = decimal_chars(n / 10);
        v.push(digit_char(n % 10));
        assert(v@ =~= decimal_text(n as nat));
        v
    }
}

pub(crate) fn append_chars(v: &mut Vec<char>, s: &[char])
    ensures
        final(v)@ == old(v)@ + s@,
{
    let ghost v0 = v@;
    let mut i: usize = 0;
    while i < s.len()
        invariant
            i <= s@.len(),
            v@ == v0 + s@.take(i as int),
        decreases s@.len() - i,
    {
        v.push(s[i]);
        assert(s@.take(i + 1) =~= s@.take(i as int).push(s@[i as int]));
        i = i + 1;
    }
    assert(s@.take(s@.len() as int) =~= s@);
}

/// `{pass}_col{i}`.
fn legacy_color(pass: &String, i: usize) -> (r: String)
    ensures
        r@ == legacy_color_name(pass@, i as int),
{
    let mut v = chars_of(pass.as_str());
    let suffix = chars_of("_col");
    append_chars(&mut v, suffix.as_slice());
    let d = decimal_chars(i);
    append_chars(&mut v, d.as_slice());
    string_of(v.as_slice())
}

/// `{pass}_depth`.
fn legacy_depth(pass: &String) -> (r: String)
    ensures
        r@ == legacy_depth_name(pass@),
{
    let mut v = chars_of(pass.as_str());
    let suffix = chars_of("_depth");
    append_chars(&mut v, suffix.as_slice());
    string_of(v.as_slice())
}

proof fn lemma_candidates_step(passes: Seq<PassShape>, p: int)
    requires
        0 <= p < passes.len(),
    ensures
        candidates(passes, p + 1) == candidates(passes, p) + pass_candidates(passes[p], p as usize),
{
}

/// Plans the resources of a sequence of passes: every output (or, for a pass without
/// named outputs, every legacy color target `{pass}_col{i}` and depth target
/// `{pass}_depth`) becomes a resource, one per distinct name, described by its first
/// declaration, sorted by name; and each pass gets its color attachments in order and
/// its (last declared) depth attachment.
pub fn plan_resources(passes: &Vec<PassShape>) -> (r: (Vec<PlannedResource>, Vec<PassPlan>))
    ensures
        plan_inv(r.0@, candidates(passes@, passes@.len() as int)),
        r.1@.len() == passes@.len(),
        forall|p: int|
            0 <= p < passes@.len() ==> {
                &&& (#[trigger] r.1@[p]).name@ == passes@[p].name@
                &&& texts(r.1@[p].colors@) == pass_colors(passes@[p])
                &&& opt_text(r.1@[p].depth) == pass_depth(passes@[p])
            },
{
    let mut res: Vec<PlannedResource> = Vec::new();
    let mut plans: Vec<PassPlan> = Vec::new();
    let mut p: usize = 0;
    while p < passes.len()
        invariant
            p <= passes@.len(),
            plan_inv(res@, candidates(passes@, p as int)),
            plans@.len() == p,
            forall|q: int|
                0 <= q < p ==> {
                    &&& (#[trigger] plans@[q]).name@ == passes@[q].name@
                    &&& texts(plans@[q].colors@) == pass_colors(passes@[q])
                    &&& opt_text(plans@[q].depth) == pass_depth(passes@[q])
                },
        decreases passes@.len() - p,
    {
        let ps = &passes[p];
        let ghost base = candidates(passes@, p as int);
        let ghost pc = pass_candidates(passes@[p as int], p);
        let mut colors: Vec<String> = Vec::new();
        let mut depth: Option<String> = None;
        proof {
            lemma_candidates_step(passes@, p as int);
            assert(base + pc.take(0) =~= base);
        }
        match &ps.outputs {
            Some(outs) => {
                let mut i: usize = 0;
                while i < outs.len()
                    invariant
                        i <= outs@.len(),
                        *ps == passes@[p as int],
                        ps.outputs == Some(*outs),
                        pc == pass_candidates(*ps, p),
                        plan_inv(res@, base + pc.take(i as int)),
                        texts(colors@) == color_names(outs@, i as int),
                        opt_text(depth) == last_depth(outs@, i as int),
                    decreases outs@.len() - i,
                {
                    let o = &outs[i];
                    proof {
                        assert(pc[i as int] == (o.name@, ResourceSource::Output { pass: p, index: i }));
                        assert(base + pc.take(i + 1) =~= (base + pc.take(i as int)).push(pc[i as int]));
                    }
                    add_resource(&mut res, o.name.clone(), ResourceSource::Output { pass: p, index: i }, Ghost(base + pc.take(i as int)));
                    if o.is_depth {
                        depth = Some(o.name.clone());
                    } else {
                        let ghost c0 = colors@;
                        colors.push(o.name.clone());
                        assert(texts(colors@) =~= texts(c0).push(o.name@));
                    }
                    i = i + 1;
                }
                assert(pc.take(outs@.len() as int) =~= pc);
            },
            None => {
                let mut i: usize = 0;
                while i < ps.legacy_colors
                    invariant
                        i <= ps.legacy_colors,
                        *ps == passes@[p as int],
                        ps.outputs is None,
                        pc == pass_candidates(*ps, p),
                        plan_inv(res@, base + pc.take(i as int)),
                        texts(colors@) == Seq::new(i as nat, |j: int| legacy_color_name(ps.name@, j)),
                        depth is None,
                    decreases ps.legacy_colors - i,
                {
                    let nm = legacy_color(&ps.name, i);
                    proof {
                        assert(pc[i as int] == (nm@, ResourceSource::LegacyColor { pass: p, index: i }));
                        assert(base + pc.take(i + 1) =~= (base + pc.take(i as int)).push(pc[i as int]));
                    }
                    add_resource(&mut res, nm.clone(), ResourceSource::LegacyColor { pass: p, index: i }, Ghost(base + pc.take(i as int)));
                    let ghost c0 = colors@;
                    colors.push(nm);
                    assert(texts(colors@) =~= texts(c0).push(legacy_color_name(ps.name@, i as int)));
                    assert(texts(colors@) =~= Seq::new((i + 1) as nat, |j: int| legacy_color_name(ps.name@, j)));
                    i = i + 1;
                }
                if ps.legacy_depth {
                    let nm = legacy_depth(&ps.name);
                    let k = ps.legacy_colors;
                    proof {
                        assert(pc[k as int] == (nm@, ResourceSource::LegacyDepth { pass: p }));
                        assert(base + pc.take(k + 1) =~= (base + pc.take(k as int)).push(pc[k as int]));
                        assert(pc.take(k + 1) =~= pc);
                    }
                    add_resource(&mut res, nm.clone(), ResourceSource::LegacyDepth { pass: p }, Ghost(base + pc.take(k as int)));
                    depth = Some(nm);
                } else {
                    assert(pc.take(ps.legacy_colors as int) =~= pc);
                }
            },
        }
        let plan = PassPlan { name: ps.name.clone(), colors, depth };
        plans.push(plan);
        p = p + 1;
    }
    (res, plans)
}

// ---------------------------------------------------------------------------
// Outputs declared on a pass
// ---------------------------------------------------------------------------

/// An `#[output(name = .., format = .., size = .., usage = .., samples = ..)]` attribute.
#[derive(Clone, Debug)]
pub struct OutputDecl {
    pub name: String,
    pub format: String,
    pub size: Option<String>,
    pub usage: Option<String>,
    pub samples: Option<i64>,
}

/// An output with its defaults filled in and whether it is the depth attachment.
#[derive(Clone, Debug)]
pub struct OutputRec {
    pub name: String,
    pub format: String,
    pub size: String,
    pub usage: String,
    pub samples: u32,
    pub is_depth: bool,
}

/// The text of an optional value, or `default`.
pub open spec fn text_or(v: Option<String>, default: Seq<char>) -> Seq<char> {
    match v {
        Some(t) => t@,
        None => default,
    }
}

/// `r` is `d` with its defaults filled in: size `rel(1.0,1.0)`, usage `color`, one sample
/// (an integer taken `as u32`); it is a depth output when a usage word is `depth`.
pub open spec fn output_from_decl(d: OutputDecl, r: OutputRec) -> bool {
    &&& r.name@ == d.name@
    &&& r.format@ == d.format@
    &&& r.size@ == text_or(d.size, "rel(1.0,1.0)"@)
    &&& r.usage@ == text_or(d.usage, "color"@)
    &&& r.samples == (match d.samples {
        Some(x) => x as u32,
        None => 1u32,
    })
    &&& r.is_depth == has_word(r.usage@, list_seps(), "depth"@)
}

/// The outputs of a pass: the declared ones in order; and, when the pass has a depth
/// target but no declared depth output, a synthesized `depth` output (`D32_SFLOAT`,
/// `rel(1.0,1.0)`, usage `depth`, one sample).
pub fn pass_outputs(decls: &Vec<OutputDecl>, has_depth_target: bool) -> (r: Vec<OutputRec>)
    ensures
        forall|i: int| 0 <= i < decls@.len() ==> output_from_decl(decls@[i], #[trigger] r@[i]),
        ({
            let any_depth = exists|i: int| 0 <= i < decls@.len() && #[trigger] r@[i].is_depth;
            if has_depth_target && !any_depth {
                &&& r@.len() == decls@.len() + 1
                &&& r@.last().name@ == "depth"@
                &&& r@.last().format@ == "D32_SFLOAT"@
                &&& r@.last().size@ == "rel(1.0,1.0)"@
                &&& r@.last().usage@ == "depth"@
                &&& r@.last().samples == 1
                &&& r@.last().is_depth
            } else {
                r@.len() == decls@.len()
            }
        }),
{
    let mut r: Vec<OutputRec> = Vec::new();
    let mut any_depth = false;
    let mut i: usize = 0;
    while i < decls.len()
        invariant
            i <= decls@.len(),
            r@.len() == i,
            forall|k: int| 0 <= k < i ==> output_from_decl(decls@[k], #[trigger] r@[k]),
            any_depth == exists|k: int| 0 <= k < i && #[trigger] r@[k].is_depth,
        decreases decls@.len() - i,
    {
        let d = &decls[i];
        let size = match &d.size {
            Some(t) => t.clone(),
            None => string_of(chars_of("rel(1.0,1.0)").as_slice()),
        };
        let usage = match &d.usage {
            Some(t) => t.clone(),
            None => string_of(chars_of("color").as_slice()),
        };
        let samples: u32 = match d.samples {
            Some(x) => x as u32,
            None => 1,
        };
        let is_depth = usage_is_depth(usage.as_str());
        let rec = OutputRec { name: d.name.clone(), format: d.format.clone(), size, usage, samples, is_depth };
        let ghost r0 = r@;
        r.push(rec);
        proof {
            assert forall|k: int| 0 <= k < i + 1 implies output_from_decl(decls@[k], #[trigger] r@[k]) by {
                if k < i {
                    assert(r@[k] == r0[k]);
                }
            }
            if is_depth {
                assert(r@[i as int].is_depth);
            }
            if exists|k: int| 0 <= k < i + 1 && #[trigger] r@[k].is_depth {
                let k = choose|k: int| 0 <= k < i + 1 && #[trigger] r@[k].is_depth;
                if k < i {
                    assert(r0[k].is_depth);
                }
            }
            if any_depth {
                let k = choose|k: int| 0 <= k < i && #[trigger] r0[k].is_depth;
                assert(r@[k].is_depth);
            }
        }
        any_depth = any_depth || is_depth;
        i = i + 1;
    }
    if has_depth_target && !any_depth {
        let rec = OutputRec {
            name: string_of(chars_of("depth").as_slice()),
            format: string_of(chars_of("D32_SFLOAT").as_slice()),
            size: string_of(chars_of("rel(1.0,1.0)").as_slice()),
            usage: string_of(chars_of("depth").as_slice()),
            samples: 1,
            is_depth: true,
        };
        let ghost r0 = r@;
        r.push(rec);
        proof {
            assert forall|k: int| 0 <= k < decls@.len() implies output_from_decl(decls@[k], #[trigger] r@[k]) by {
                assert(r@[k] == r0[k]);
            }
            assert forall|k: int| 0 <= k < decls@.len() implies !#[trigger] r@[k].is_depth by {
                assert(r@[k] == r0[k]);
            }
        }
    }
    r
}

// ---------------------------------------------------------------------------
// The pipeline of a graph's first pass
// ---------------------------------------------------------------------------

/// Why a render graph could not be turned into an engine configuration.
#[derive(Debug, Clone, Copy, PartialEq, Eq, Structural)]
pub enum GraphConfigError {
    /// The configuration has no pipeline to take shaders and state from.
    NoBasePipeline,
}

impl GraphConfigError {
    /// The error's message.
    pub fn message(&self) -> (r: &'static str)
        ensures
            r@ == "no base pipeline in EngineConfig"@,
    {
        "no base pipeline in EngineConfig"
    }
}

/// The format of the first of the first `k` planned resources named `name`.
pub open spec fn format_named(rs: Seq<(String, &'static str)>, name: Seq<char>, k: int) -> Option<&'static str>
    decreases k,
{
    if k <= 0 {
        None
    } else {
        match format_named(rs, name, k - 1) {
            Some(f) => Some(f),
            None => if rs[k - 1].0@ == name {
                Some(rs[k - 1].1)
            } else {
                None
            },
        }
    }
}

/// The color targets of the first `k` planned colors of a pass: one for each color that
/// names a planned resource, with that resource's format and no blend override.
pub open spec fn planned_color_targets(colors: Seq<String>, rs: Seq<(String, &'static str)>, k: int) -> Seq<
    ColorTargetDesc,
>
    decreases k,
{
    if k <= 0 {
        Seq::empty()
    } else {
        let prev = planned_color_targets(colors, rs, k - 1);
        match format_named(rs, colors[k - 1]@, rs.len() as int) {
            Some(f) => prev.push(ColorTargetDesc { format: f, blend: None }),
            None => prev,
        }
    }
}

/// The pipeline that runs a graph's first pass: `base`'s shaders and state, named
/// `graph_pass_0`, with the pass's planned color targets (its own when none is planned)
/// and its planned depth target (its own when none is planned or found).
pub open spec fn graph_pass_pipeline(
    p: PipelineDesc,
    base: PipelineDesc,
    pass_color: Option<&'static [ColorTargetDesc]>,
    pass_depth: Option<DepthTargetDesc>,
    plan: PassPlan,
    rs: Seq<(String, &'static str)>,
) -> bool {
    let targets = planned_color_targets(plan.colors@, rs, plan.colors@.len() as int);
    &&& p.name@ == "graph_pass_0"@
    &&& p.shaders == base.shaders
    &&& p.topology == base.topology
    &&& p.depth == base.depth
    &&& p.raster == base.raster
    &&& p.blend == base.blend
    &&& p.samples == base.samples
    &&& p.depth_stencil == base.depth_stencil
    &&& p.dynamic == base.dynamic
    &&& p.push_constants == base.push_constants
    &&& (if targets.len() == 0 {
        p.color_targets == pass_color
    } else {
        p.color_targets matches Some(t) && t@ == targets
    })
    &&& p.depth_target == match plan.depth {
        Some(d) => match format_named(rs, d@, rs.len() as int) {
            Some(f) => Some(DepthTargetDesc { format: f }),
            None => pass_depth,
        },
        None => pass_depth,
    }
}

/// Gives a list of color targets the static lifetime that descriptions carry, by
/// `Vec::leak`.
#[verifier::external_body]
fn leak_targets(v: Vec<ColorTargetDesc>) -> (r: &'static [ColorTargetDesc])
    ensures
        r@ == v@,
{
    v.leak()
}

fn find_format(rs: &Vec<(String, &'static str)>, name: &String) -> (r: Option<&'static str>)
    ensures
        r == format_named(rs@, name@, rs@.len() as int),
{
    let mut i: usize = 0;
    while i < rs.len()
        invariant
            i <= rs@.len(),
            format_named(rs@, name@, i as int) is None,
        decreases rs@.len() - i,
    {
        if str_eq(rs[i].0.as_str(), name.as_str()) {
            proof {
                lemma_format_found(rs@, name@, i + 1, rs@.len() as int);
            }
            return Some(rs[i].1);
        }
        i = i + 1;
    }
    None
}

proof fn lemma_format_found(rs: Seq<(String, &'static str)>, name: Seq<char>, k: int, m: int)
    requires
        0 <= k <= m,
        format_named(rs, name, k) is Some,
    ensures
        format_named(rs, name, m) == format_named(rs, name, k),
    decreases m - k,
{
    if m > k {
        lemma_format_found(rs, name, k, m - 1);
    }
}

/// The configuration that runs a render graph's first pass: `cfg`'s app, window and
/// options, and one pipeline built from `cfg`'s first pipeline (see
/// `graph_pass_pipeline`), given the pass's own targets, its planned attachments and the
/// formats of the planned resources. Fails when `cfg` has no pipeline.
pub fn graph_pass_config(
    cfg: EngineConfig,
    pass_color: Option<&'static [ColorTargetDesc]>,
    pass_depth: Option<DepthTargetDesc>,
    plan: &PassPlan,
    formats: &Vec<(String, &'static str)>,
) -> (r: Result<EngineConfig, GraphConfigError>)
    ensures
        cfg.pipelines@.len() == 0 ==> r == Err::<EngineConfig, GraphConfigError>(GraphConfigError::NoBasePipeline),
        cfg.pipelines@.len() > 0 ==> (r matches Ok(c) && {
            &&& c.app == cfg.app
            &&& c.window == cfg.window
            &&& c.options == cfg.options
            &&& c.pipelines@.len() == 1
            &&& graph_pass_pipeline(c.pipelines@[0], cfg.pipelines@[0], pass_color, pass_depth, *plan, formats@)
        }),
{
    let ghost old_pipelines = cfg.pipelines@;
    let EngineConfig { app, window, pipelines, options } = cfg;
    let mut pipelines = pipelines;
    if pipelines.len() == 0 {
        return Err(GraphConfigError::NoBasePipeline);
    }
    let base = pipelines.remove(0);
    assert(base == old_pipelines[0]);
    let mut targets: Vec<ColorTargetDesc> = Vec::new();
    let mut i: usize = 0;
    while i < plan.colors.len()
        invariant
            i <= plan.colors@.len(),
            targets@ == planned_color_targets(plan.colors@, formats@, i as int),
        decreases plan.colors@.len() - i,
    {
        match find_format(formats, &plan.colors[i]) {
            Some(f) => targets.push(ColorTargetDesc { format: f, blend: None }),
            None => {},
        }
        i = i + 1;
    }
    let color_targets = if targets.len() == 0 {
        pass_color
    } else {
        Some(leak_targets(targets))
    };
    let depth_target = match &plan.depth {
        Some(d) => match find_format(formats, d) {
            Some(f) => Some(DepthTargetDesc { format: f }),
            None => pass_depth,
        },
        None => pass_depth,
    };
    let synth = PipelineDesc {
        name: "graph_pass_0",
        shaders: base.shaders,
        topology: base.topology,
        depth: base.depth,
        raster: base.raster,
        blend: base.blend,
        samples: base.samples,
        depth_stencil: base.depth_stencil,
        dynamic: base.dynamic,
        push_constants: base.push_constants,
        color_targets,
        depth_target,
    };
    proof {
        reveal_strlit("graph_pass_0");
    }
    let mut out: Vec<PipelineDesc> = Vec::new();
    out.push(synth);
    Ok(EngineConfig { app, window, pipelines: out, options })
}

} // verus!
