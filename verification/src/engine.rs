//! Engine configuration: window and backend options, the chainable builder, config
//! validation, and the backend / renderer abstractions.
use vstd::prelude::*;
use crate::pipeline::{PipelineDesc, parse_bool_word, spec_bool_word};
use crate::resources::{BindingDesc, ResourceBindings, VertexAttr, VertexLayout};
use crate::render_graph::{append_chars, decimal_chars};
use crate::text::{decimal_text, leak_text, string_of, chars_of, parse_u32, parse_usize, parses_unsigned, decimal_value, unsigned_digits, split, split_seq, trim, trim_seq};
use core::marker::PhantomData;

verus! {

#[derive(Clone, Debug)]
pub struct WindowCfg {
    pub width: u32,
    pub height: u32,
    pub vsync: bool,
}

/// Generic, backend-agnostic knobs the runtime can honor.
/// Backends may ignore fields they don't support; defaults leave every knob unset.
#[derive(Clone, Debug)]
pub struct BackendOptions {
    /// Requested present mode, e.g. "FIFO", "MAILBOX", "IMMEDIATE".
    /// When `None`, vsync determines a sensible default.
    pub present_mode: Option<&'static str>,
    /// Preferred swapchain image count; clamped to surface capabilities.
    pub swapchain_images: Option<u32>,
    /// Requested color format, e.g. "B8G8R8A8_SRGB". Fallbacks if unavailable.
    pub color_format: Option<&'static str>,
    /// Requested color space, e.g. "SRGB_NONLINEAR".
    pub color_space: Option<&'static str>,
    /// Requested depth format, e.g. "D32_SFLOAT".
    pub depth_format: Option<&'static str>,
    /// MSAA sample count for attachments/pipelines, e.g. 1,2,4,8.
    pub msaa_samples: Option<u32>,
    /// Enable dynamic viewport state.
    pub dynamic_viewport: Option<bool>,
    /// Enable dynamic scissor state.
    pub dynamic_scissor: Option<bool>,
    /// Preferred present mode order, first supported wins.
    pub present_mode_priority: Option<Vec<&'static str>>,
    /// Preferred adapter index (in enumeration order) if available.
    pub adapter_index: Option<usize>,
    /// Preferred adapter kind: "discrete" | "integrated" | "virtual" | "cpu".
    pub adapter_preference: Option<&'static str>,
}

/// Every option unset.
pub open spec fn no_options() -> BackendOptions {
    BackendOptions {
        present_mode: None,
        swapchain_images: None,
        color_format: None,
        color_space: None,
        depth_format: None,
        msaa_samples: None,
        dynamic_viewport: None,
        dynamic_scissor: None,
        present_mode_priority: None,
        adapter_index: None,
        adapter_preference: None,
    }
}

impl Default for BackendOptions {
    fn default() -> (r: Self)
        ensures
            r == no_options(),
    {
        BackendOptions {
            present_mode: None,
            swapchain_images: None,
            color_format: None,
            color_space: None,
            depth_format: None,
            msaa_samples: None,
            dynamic_viewport: None,
            dynamic_scissor: None,
            present_mode_priority: None,
            adapter_index: None,
            adapter_preference: None,
        }
    }
}

/// `a` where it is set, else `b`.
pub open spec fn or_else<T>(a: Option<T>, b: Option<T>) -> Option<T> {
    match a {
        Some(x) => Some(x),
        None => b,
    }
}

/// Options set on `own`, with the unset ones taken from `env`.
pub open spec fn merged_options(own: BackendOptions, env: BackendOptions) -> BackendOptions {
    BackendOptions {
        present_mode: or_else(own.present_mode, env.present_mode),
        swapchain_images: or_else(own.swapchain_images, env.swapchain_images),
        color_format: or_else(own.color_format, env.color_format),
        color_space: or_else(own.color_space, env.color_space),
        depth_format: or_else(own.depth_format, env.depth_format),
        msaa_samples: or_else(own.msaa_samples, env.msaa_samples),
        dynamic_viewport: or_else(own.dynamic_viewport, env.dynamic_viewport),
        dynamic_scissor: or_else(own.dynamic_scissor, env.dynamic_scissor),
        present_mode_priority: or_else(own.present_mode_priority, env.present_mode_priority),
        adapter_index: or_else(own.adapter_index, env.adapter_index),
        adapter_preference: or_else(own.adapter_preference, env.adapter_preference),
    }
}

impl BackendOptions {
    /// Merges options read from the environment into `self` as fallbacks: fields already
    /// set on `self` are kept, unset fields adopt the environment's values.
    pub fn with_env_fallback(self, env: BackendOptions) -> (r: Self)
        ensures
            r == merged_options(self, env),
    {
        let mut s = self;
        let env = env;
        if s.present_mode.is_none() {
            s.present_mode = env.present_mode;
        }
        if s.swapchain_images.is_none() {
            s.swapchain_images = env.swapchain_images;
        }
        if s.color_format.is_none() {
            s.color_format = env.color_format;
        }
        if s.color_space.is_none() {
            s.color_space = env.color_space;
        }
        if s.depth_format.is_none() {
            s.depth_format = env.depth_format;
        }
        if s.msaa_samples.is_none() {
            s.msaa_samples = env.msaa_samples;
        }
        if s.dynamic_viewport.is_none() {
            s.dynamic_viewport = env.dynamic_viewport;
        }
        if s.dynamic_scissor.is_none() {
            s.dynamic_scissor = env.dynamic_scissor;
        }
        if s.present_mode_priority.is_none() {
            s.present_mode_priority = env.present_mode_priority;
        }
        if s.adapter_index.is_none() {
            s.adapter_index = env.adapter_index;
        }
        if s.adapter_preference.is_none() {
            s.adapter_preference = env.adapter_preference;
        }
        s
    }
}

/// Merging environment options keeps every option already set: a set field of `own` is
/// the merged field, an unset one is the environment's.
pub proof fn law_env_fallback_keeps_own(own: BackendOptions, env: BackendOptions)
    ensures
        own.present_mode is Some ==> merged_options(own, env).present_mode == own.present_mode,
        own.present_mode is None ==> merged_options(own, env).present_mode == env.present_mode,
        own.swapchain_images is Some ==> merged_options(own, env).swapchain_images == own.swapchain_images,
        own.swapchain_images is None ==> merged_options(own, env).swapchain_images == env.swapchain_images,
        own.color_format is Some ==> merged_options(own, env).color_format == own.color_format,
        own.color_format is None ==> merged_options(own, env).color_format == env.color_format,
        own.color_space is Some ==> merged_options(own, env).color_space == own.color_space,
        own.color_space is None ==> merged_options(own, env).color_space == env.color_space,
        own.depth_format is Some ==> merged_options(own, env).depth_format == own.depth_format,
        own.depth_format is None ==> merged_options(own, env).depth_format == env.depth_format,
        own.msaa_samples is Some ==> merged_options(own, env).msaa_samples == own.msaa_samples,
        own.msaa_samples is None ==> merged_options(own, env).msaa_samples == env.msaa_samples,
        own.dynamic_viewport is Some ==> merged_options(own, env).dynamic_viewport == own.dynamic_viewport,
        own.dynamic_viewport is None ==> merged_options(own, env).dynamic_viewport == env.dynamic_viewport,
        own.dynamic_scissor is Some ==> merged_options(own, env).dynamic_scissor == own.dynamic_scissor,
        own.dynamic_scissor is None ==> merged_options(own, env).dynamic_scissor == env.dynamic_scissor,
        own.present_mode_priority is Some ==> merged_options(own, env).present_mode_priority
            == own.present_mode_priority,
        own.present_mode_priority is None ==> merged_options(own, env).present_mode_priority
            == env.present_mode_priority,
        own.adapter_index is Some ==> merged_options(own, env).adapter_index == own.adapter_index,
        own.adapter_index is None ==> merged_options(own, env).adapter_index == env.adapter_index,
        own.adapter_preference is Some ==> merged_options(own, env).adapter_preference == own.adapter_preference,
        own.adapter_preference is None ==> merged_options(own, env).adapter_preference == env.adapter_preference,
{
}

/// Merging the same environment options twice changes nothing more.
pub proof fn law_env_fallback_idempotent(own: BackendOptions, env: BackendOptions)
    ensures
        merged_options(merged_options(own, env), env) == merged_options(own, env),
{
}

/// With an empty environment, merging leaves the options as they are.
pub proof fn law_env_fallback_empty_env(own: BackendOptions)
    ensures
        merged_options(own, no_options()) == own,
{
}

/// The window a `#[window(width = .., height = .., vsync = ..)]` attribute of a render
/// engine describes: 1280 x 720 with vsync unless given (integers taken `as u32`).
pub fn window_from_attrs(width: Option<i64>, height: Option<i64>, vsync: Option<bool>) -> (r: WindowCfg)
    ensures
        r.width == (match width {
            Some(w) => w as u32,
            None => 1280u32,
        }),
        r.height == (match height {
            Some(h) => h as u32,
            None => 720u32,
        }),
        r.vsync == (match vsync {
            Some(v) => v,
            None => true,
        }),
{
    let w: u32 = match width {
        Some(x) => x as u32,
        None => 1280,
    };
    let h: u32 = match height {
        Some(x) => x as u32,
        None => 720,
    };
    let v = match vsync {
        Some(b) => b,
        None => true,
    };
    WindowCfg { width: w, height: h, vsync: v }
}

// ---------------------------------------------------------------------------
// Reading option values from text (environment variables)
// ---------------------------------------------------------------------------

/// A boolean environment value: `1|true|yes|on` or `0|false|no|off`, after trimming,
/// case-insensitively.
pub fn parse_env_flag(v: &str) -> (r: Option<bool>)
    ensures
        r == spec_bool_word(v@),
{
    parse_bool_word(chars_of(v).as_slice())
}

/// A `u32` environment value, read as `str::parse::<u32>` reads it.
pub fn parse_env_u32(v: &str) -> (r: Option<u32>)
    ensures
        r is Some <==> parses_unsigned(v@, u32::MAX as nat),
        r matches Some(n) ==> n as nat == decimal_value(unsigned_digits(v@)),
{
    parse_u32(chars_of(v).as_slice())
}

/// A `usize` environment value, read as `str::parse::<usize>` reads it.
pub fn parse_env_usize(v: &str) -> (r: Option<usize>)
    ensures
        r is Some <==> parses_unsigned(v@, usize::MAX as nat),
        r matches Some(n) ==> n as nat == decimal_value(unsigned_digits(v@)),
{
    parse_usize(chars_of(v).as_slice())
}

/// The entries of a comma-separated list such as `"MAILBOX, FIFO"`, each trimmed.
pub fn parse_mode_list(v: &str) -> (r: Vec<Vec<char>>)
    ensures
        r@.len() == split_seq(v@, seq![',']).len(),
        forall|k: int|
            0 <= k < r@.len() ==> #[trigger] r@[k]@ == trim_seq(split_seq(v@, seq![','])[k]),
{
    let mut seps: Vec<char> = Vec::new();
    seps.push(',');
    assert(seps@ =~= seq![',']);
    let pieces = split(chars_of(v).as_slice(), seps.as_slice());
    let mut r: Vec<Vec<char>> = Vec::new();
    let mut i: usize = 0;
    while i < pieces.len()
        invariant
            seps@ == seq![','],
            i <= pieces@.len(),
            pieces@.len() == split_seq(v@, seq![',']).len(),
            forall|k: int| 0 <= k < pieces@.len() ==> #[trigger] pieces@[k]@ == split_seq(v@, seq![','])[k],
            r@.len() == i,
            forall|k: int| 0 <= k < i ==> #[trigger] r@[k]@ == trim_seq(split_seq(v@, seq![','])[k]),
        decreases pieces@.len() - i,
    {
        r.push(trim(pieces[i].as_slice()));
        i = i + 1;
    }
    r
}

/// The raw values of the `MK_*` environment variables, each absent when the variable is
/// unset or not valid unicode.
#[derive(Clone, Debug)]
pub struct EnvVars {
    pub present_mode: Option<String>,
    pub present_mode_priority: Option<String>,
    pub swapchain_images: Option<String>,
    pub color_format: Option<String>,
    pub color_space: Option<String>,
    pub depth_format: Option<String>,
    pub msaa_samples: Option<String>,
    pub dynamic_viewport: Option<String>,
    pub dynamic_scissor: Option<String>,
    pub adapter_index: Option<String>,
    pub adapter_preference: Option<String>,
}

/// A text option read from a variable: its value when non-empty, else unset.
pub open spec fn text_from_var(v: Option<String>, o: Option<&'static str>) -> bool {
    match v {
        Some(s) => if s@.len() > 0 {
            o matches Some(t) && t@ == s@
        } else {
            o is None
        },
        None => o is None,
    }
}

/// A mode list read from a variable: when non-empty, its comma-separated entries, each
/// trimmed; else unset.
pub open spec fn list_from_var(v: Option<String>, o: Option<Vec<&'static str>>) -> bool {
    match v {
        Some(s) => if s@.len() > 0 {
            o matches Some(l) && l@.len() == split_seq(s@, seq![',']).len() && forall|k: int|
                0 <= k < l@.len() ==> (#[trigger] l@[k])@ == trim_seq(split_seq(s@, seq![','])[k])
        } else {
            o is None
        },
        None => o is None,
    }
}

/// A `u32` option read from a variable as `str::parse::<u32>` reads it; unset otherwise.
pub open spec fn u32_from_var(v: Option<String>, o: Option<u32>) -> bool {
    match v {
        Some(s) => if parses_unsigned(s@, u32::MAX as nat) {
            o matches Some(n) && n as nat == decimal_value(unsigned_digits(s@))
        } else {
            o is None
        },
        None => o is None,
    }
}

/// A `usize` option read from a variable as `str::parse::<usize>` reads it; unset
/// otherwise.
pub open spec fn usize_from_var(v: Option<String>, o: Option<usize>) -> bool {
    match v {
        Some(s) => if parses_unsigned(s@, usize::MAX as nat) {
            o matches Some(n) && n as nat == decimal_value(unsigned_digits(s@))
        } else {
            o is None
        },
        None => o is None,
    }
}

/// A flag option read from a variable (see `parse_env_flag`); unset otherwise.
pub open spec fn flag_from_var(v: Option<String>) -> Option<bool> {
    match v {
        Some(s) => spec_bool_word(s@),
        None => None,
    }
}

proof fn lemma_split_nonempty(s: Seq<char>, seps: Seq<char>)
    ensures
        split_seq(s, seps).len() >= 1,
    decreases s.len(),
{
    if s.len() > 0 {
        lemma_split_nonempty(s.drop_last(), seps);
    }
}

fn text_var(v: Option<String>) -> (r: Option<&'static str>)
    ensures
        text_from_var(v, r),
{
    match v {
        Some(s) => if s.as_str().unicode_len() > 0 {
            Some(leak_text(s))
        } else {
            None
        },
        None => None,
    }
}

fn list_var(v: Option<String>) -> (r: Option<Vec<&'static str>>)
    ensures
        list_from_var(v, r),
{
    match v {
        Some(s) => {
            if s.as_str().unicode_len() == 0 {
                return None;
            }
            let pieces = parse_mode_list(s.as_str());
            proof {
                lemma_split_nonempty(s@, seq![',']);
            }
            let mut l: Vec<&'static str> = Vec::new();
            let mut i: usize = 0;
            while i < pieces.len()
                invariant
                    i <= pieces@.len(),
                    pieces@.len() == split_seq(s@, seq![',']).len(),
                    forall|k: int|
                        0 <= k < pieces@.len() ==> #[trigger] pieces@[k]@ == trim_seq(split_seq(s@, seq![','])[k]),
                    l@.len() == i,
                    forall|k: int| 0 <= k < i ==> (#[trigger] l@[k])@ == pieces@[k]@,
                decreases pieces@.len() - i,
            {
                l.push(leak_text(string_of(pieces[i].as_slice())));
                i = i + 1;
            }
            Some(l)
        },
        None => None,
    }
}

fn u32_var(v: &Option<String>) -> (r: Option<u32>)
    ensures
        u32_from_var(*v, r),
{
    match v {
        Some(s) => parse_env_u32(s.as_str()),
        None => None,
    }
}

fn usize_var(v: &Option<String>) -> (r: Option<usize>)
    ensures
        usize_from_var(*v, r),
{
    match v {
        Some(s) => parse_env_usize(s.as_str()),
        None => None,
    }
}

fn flag_var(v: &Option<String>) -> (r: Option<bool>)
    ensures
        r == flag_from_var(*v),
{
    match v {
        Some(s) => parse_env_flag(s.as_str()),
        None => None,
    }
}

/// The options the environment sets: text options from non-empty values, numbers and
/// flags where they read as such; every other option unset.
pub fn options_from_env(vars: EnvVars) -> (r: BackendOptions)
    ensures
        text_from_var(vars.present_mode, r.present_mode),
        list_from_var(vars.present_mode_priority, r.present_mode_priority),
        u32_from_var(vars.swapchain_images, r.swapchain_images),
        text_from_var(vars.color_format, r.color_format),
        text_from_var(vars.color_space, r.color_space),
        text_from_var(vars.depth_format, r.depth_format),
        u32_from_var(vars.msaa_samples, r.msaa_samples),
        r.dynamic_viewport == flag_from_var(vars.dynamic_viewport),
        r.dynamic_scissor == flag_from_var(vars.dynamic_scissor),
        usize_from_var(vars.adapter_index, r.adapter_index),
        text_from_var(vars.adapter_preference, r.adapter_preference),
{
    let swapchain_images = u32_var(&vars.swapchain_images);
    let msaa_samples = u32_var(&vars.msaa_samples);
    let dynamic_viewport = flag_var(&vars.dynamic_viewport);
    let dynamic_scissor = flag_var(&vars.dynamic_scissor);
    let adapter_index = usize_var(&vars.adapter_index);
    BackendOptions {
        present_mode: text_var(vars.present_mode),
        swapchain_images,
        color_format: text_var(vars.color_format),
        color_space: text_var(vars.color_space),
        depth_format: text_var(vars.depth_format),
        msaa_samples,
        dynamic_viewport,
        dynamic_scissor,
        present_mode_priority: list_var(vars.present_mode_priority),
        adapter_index,
        adapter_preference: text_var(vars.adapter_preference),
    }
}

/// Texts joined with `,` between them.
pub open spec fn comma_joined(s: Seq<Seq<char>>) -> Seq<char>
    decreases s.len(),
{
    if s.len() == 0 {
        Seq::<char>::empty()
    } else if s.len() == 1 {
        s[0]
    } else {
        comma_joined(s.drop_last()) + seq![','] + s.last()
    }
}

/// The texts of a list of names.
pub open spec fn name_texts(names: Seq<&'static str>) -> Seq<Seq<char>> {
    names.map_values(|n: &'static str| n@)
}

/// `true` or `false`.
pub open spec fn bool_text(b: bool) -> Seq<char> {
    if b {
        "true"@
    } else {
        "false"@
    }
}

/// A text option, or the text saying what its absence means.
pub open spec fn text_or(o: Option<&'static str>, default: Seq<char>) -> Seq<char> {
    match o {
        Some(t) => t@,
        None => default,
    }
}

/// A number option in decimal, or the text saying what its absence means.
pub open spec fn number_or(o: Option<nat>, default: Seq<char>) -> Seq<char> {
    match o {
        Some(n) => decimal_text(n),
        None => default,
    }
}

/// A flag option, or the text saying that the pipeline decides.
pub open spec fn flag_or(o: Option<bool>) -> Seq<char> {
    match o {
        Some(b) => bool_text(b),
        None => "(pipeline-driven)"@,
    }
}

pub open spec fn opt_nat_u32(o: Option<u32>) -> Option<nat> {
    match o {
        Some(n) => Some(n as nat),
        None => None,
    }
}

pub open spec fn opt_nat_usize(o: Option<usize>) -> Option<nat> {
    match o {
        Some(n) => Some(n as nat),
        None => None,
    }
}

/// How the present mode reads in the summary: a non-empty priority list, else the
/// requested mode, else the default that vsync implies.
pub open spec fn present_mode_summary(o: BackendOptions, vsync: bool) -> Seq<char> {
    if o.present_mode_priority is Some && o.present_mode_priority->Some_0@.len() > 0 {
        "priority=["@ + comma_joined(name_texts(o.present_mode_priority->Some_0@)) + "]"@
    } else {
        match o.present_mode {
            Some(m) => m@,
            None => if vsync {
                "(default: FIFO via vsync)"@
            } else {
                "(default: MAILBOX via vsync=false)"@
            },
        }
    }
}

/// The one-line summary of the effective options, with the defaults unset ones imply.
pub open spec fn spec_options_summary(o: BackendOptions, window: WindowCfg) -> Seq<char> {
    "[gfx] BackendOptions: present_mode="@ + present_mode_summary(o, window.vsync)
        + " | swapchain_images="@ + number_or(opt_nat_u32(o.swapchain_images), "(default: min+1, clamped)"@)
        + " | color_format="@ + text_or(o.color_format, "(default: prefer B8G8R8A8_SRGB)"@)
        + " | color_space="@ + text_or(o.color_space, "(default: SRGB_NONLINEAR if available)"@)
        + " | depth_format="@ + text_or(o.depth_format, "(default: prefer D32_SFLOAT)"@)
        + " | msaa="@ + number_or(opt_nat_u32(o.msaa_samples), "(default: 1x)"@)
        + " | dynamic_viewport="@ + flag_or(o.dynamic_viewport)
        + " | dynamic_scissor="@ + flag_or(o.dynamic_scissor)
        + " | adapter_index="@ + number_or(opt_nat_usize(o.adapter_index), "(any)"@)
        + " | adapter_preference="@ + text_or(o.adapter_preference, "(none)"@)
}

fn push_text(v: &mut Vec<char>, t: &str)
    ensures
        final(v)@ == old(v)@ + t@,
{
    let cs = chars_of(t);
    append_chars(v, cs.as_slice());
}

fn push_text_or(v: &mut Vec<char>, o: Option<&'static str>, default: &str)
    ensures
        final(v)@ == old(v)@ + text_or(o, default@),
{
    match o {
        Some(t) => push_text(v, t),
        None => push_text(v, default),
    }
}

fn push_number_or(v: &mut Vec<char>, o: Option<usize>, default: &str)
    ensures
        final(v)@ == old(v)@ + number_or(opt_nat_usize(o), default@),
{
    match o {
        Some(n) => {
            let d = decimal_chars(n);
            append_chars(v, d.as_slice());
        },
        None => push_text(v, default),
    }
}

fn widen(o: Option<u32>) -> (r: Option<usize>)
    ensures
        opt_nat_usize(r) == opt_nat_u32(o),
{
    match o {
        Some(n) => Some(n as usize),
        None => None,
    }
}

fn push_flag_or(v: &mut Vec<char>, o: Option<bool>)
    ensures
        final(v)@ == old(v)@ + flag_or(o),
{
    match o {
        Some(true) => push_text(v, "true"),
        Some(false) => push_text(v, "false"),
        None => push_text(v, "(pipeline-driven)"),
    }
}

fn push_joined(v: &mut Vec<char>, names: &Vec<&'static str>)
    ensures
        final(v)@ == old(v)@ + comma_joined(name_texts(names@)),
{
    let ghost v0 = v@;
    let mut i: usize = 0;
    while i < names.len()
        invariant
            i <= names@.len(),
            v@ == v0 + comma_joined(name_texts(names@.take(i as int))),
        decreases names@.len() - i,
    {
        let ghost before = v@;
        proof {
            let t = names@.take(i + 1);
            assert(t.drop_last() =~= names@.take(i as int));
            assert(name_texts(t).drop_last() =~= name_texts(names@.take(i as int)));
            assert(name_texts(t).last() == names@[i as int]@);
            assert(name_texts(t).len() == i + 1);
        }
        if i > 0 {
            let mut sep: Vec<char> = Vec::new();
            sep.push(',');
            append_chars(v, sep.as_slice());
            push_text(v, names[i]);
            assert(v@ =~= v0 + comma_joined(name_texts(names@.take(i + 1))));
        } else {
            push_text(v, names[i]);
            assert(name_texts(names@.take(1))[0] == names@[0]@);
            assert(v@ =~= v0 + comma_joined(name_texts(names@.take(i + 1))));
        }
        i = i + 1;
    }
    assert(names@.take(names@.len() as int) =~= names@);
}

/// The one-line summary of the effective options (see `spec_options_summary`).
pub fn options_summary(o: &BackendOptions, window: &WindowCfg) -> (r: String)
    ensures
        r@ == spec_options_summary(*o, *window),
{
    let mut v: Vec<char> = chars_of("[gfx] BackendOptions: present_mode=");
    let listed = match &o.present_mode_priority {
        Some(list) => list.len() > 0,
        None => false,
    };
    if listed {
        match &o.present_mode_priority {
            Some(list) => {
                push_text(&mut v, "priority=[");
                push_joined(&mut v, list);
                push_text(&mut v, "]");
            },
            None => {},
        }
    } else {
        match o.present_mode {
            Some(m) => push_text(&mut v, m),
            None => if window.vsync {
                push_text(&mut v, "(default: FIFO via vsync)")
            } else {
                push_text(&mut v, "(default: MAILBOX via vsync=false)")
            },
        }
    }
    push_text(&mut v, " | swapchain_images=");
    push_number_or(&mut v, widen(o.swapchain_images), "(default: min+1, clamped)");
    push_text(&mut v, " | color_format=");
    push_text_or(&mut v, o.color_format, "(default: prefer B8G8R8A8_SRGB)");
    push_text(&mut v, " | color_space=");
    push_text_or(&mut v, o.color_space, "(default: SRGB_NONLINEAR if available)");
    push_text(&mut v, " | depth_format=");
    push_text_or(&mut v, o.depth_format, "(default: prefer D32_SFLOAT)");
    push_text(&mut v, " | msaa=");
    push_number_or(&mut v, widen(o.msaa_samples), "(default: 1x)");
    push_text(&mut v, " | dynamic_viewport=");
    push_flag_or(&mut v, o.dynamic_viewport);
    push_text(&mut v, " | dynamic_scissor=");
    push_flag_or(&mut v, o.dynamic_scissor);
    push_text(&mut v, " | adapter_index=");
    push_number_or(&mut v, o.adapter_index, "(any)");
    push_text(&mut v, " | adapter_preference=");
    push_text_or(&mut v, o.adapter_preference, "(none)");
    string_of(v.as_slice())
}

#[derive(Clone, Debug)]
pub struct EngineConfig {
    pub app: &'static str,
    pub window: WindowCfg,
    pub pipelines: Vec<PipelineDesc>,
    pub options: BackendOptions,
}

// ---------------------------------------------------------------------------
// Config validation
// ---------------------------------------------------------------------------

#[derive(Debug, Clone, PartialEq, Eq)]
pub enum ConfigError {
    NoPipelines,
    EmptyShaderPath { pipeline: &'static str, which: &'static str },
    DuplicatePipeline { pipeline: &'static str },
}

/// The stage name an empty vertex shader path is reported under.
pub const VS_STAGE: &'static str = "vs";

/// The stage name an empty fragment shader path is reported under.
pub const FS_STAGE: &'static str = "fs";

/// Some pipeline before index `i` has the same name as pipeline `i`.
pub open spec fn name_seen_before(ps: Seq<PipelineDesc>, i: int) -> bool {
    exists|j: int| 0 <= j < i && ps[j].name@ == ps[i].name@
}

/// What is wrong with pipeline `i` when all pipelines before it are fine: an empty vertex
/// shader path, an empty fragment shader path, or a name used before.
pub open spec fn pipeline_fault(ps: Seq<PipelineDesc>, i: int) -> Option<ConfigError> {
    if ps[i].shaders.vs@.len() == 0 {
        Some(ConfigError::EmptyShaderPath { pipeline: ps[i].name, which: VS_STAGE })
    } else if ps[i].shaders.fs@.len() == 0 {
        Some(ConfigError::EmptyShaderPath { pipeline: ps[i].name, which: FS_STAGE })
    } else if name_seen_before(ps, i) {
        Some(ConfigError::DuplicatePipeline { pipeline: ps[i].name })
    } else {
        None
    }
}

/// The first fault among the pipelines from index `i` on.
pub open spec fn first_fault_from(ps: Seq<PipelineDesc>, i: int) -> Option<ConfigError>
    decreases ps.len() - i,
{
    if i < 0 || i >= ps.len() {
        None
    } else {
        match pipeline_fault(ps, i) {
            Some(e) => Some(e),
            None => first_fault_from(ps, i + 1),
        }
    }
}

/// The outcome of config validation: there must be a pipeline, and every pipeline needs
/// non-empty shader paths and a name of its own.
pub open spec fn spec_validate(ps: Seq<PipelineDesc>) -> Result<(), ConfigError> {
    if ps.len() == 0 {
        Err(ConfigError::NoPipelines)
    } else {
        match first_fault_from(ps, 0) {
            Some(e) => Err(e),
            None => Ok(()),
        }
    }
}

proof fn lemma_first_fault_here(ps: Seq<PipelineDesc>, i: int)
    requires
        0 <= i < ps.len(),
        pipeline_fault(ps, i) is Some,
    ensures
        first_fault_from(ps, i) == pipeline_fault(ps, i),
{
}

proof fn lemma_first_fault_skip(ps: Seq<PipelineDesc>, i: int)
    requires
        0 <= i < ps.len(),
        pipeline_fault(ps, i) is None,
    ensures
        first_fault_from(ps, i) == first_fault_from(ps, i + 1),
{
}

proof fn lemma_no_fault_from(ps: Seq<PipelineDesc>, i: int, k: int)
    requires
        0 <= i <= k < ps.len(),
        first_fault_from(ps, i) is None,
    ensures
        pipeline_fault(ps, k) is None,
    decreases k - i,
{
    if i < k {
        lemma_no_fault_from(ps, i + 1, k);
    }
}

proof fn lemma_fault_found(ps: Seq<PipelineDesc>, i: int) -> (k: int)
    requires
        0 <= i,
        first_fault_from(ps, i) is Some,
    ensures
        i <= k < ps.len(),
        pipeline_fault(ps, k) == first_fault_from(ps, i),
    decreases ps.len() - i,
{
    if pipeline_fault(ps, i) is Some {
        i
    } else {
        lemma_fault_found(ps, i + 1)
    }
}

proof fn lemma_none_when_clean(ps: Seq<PipelineDesc>, i: int)
    requires
        0 <= i <= ps.len(),
        forall|k: int| 0 <= k < ps.len() ==> ps[k].shaders.vs@.len() > 0 && ps[k].shaders.fs@.len() > 0,
        forall|a: int, b: int| 0 <= a < b < ps.len() ==> ps[a].name@ != ps[b].name@,
    ensures
        first_fault_from(ps, i) is None,
    decreases ps.len() - i,
{
    if i < ps.len() {
        lemma_none_when_clean(ps, i + 1);
        assert(!name_seen_before(ps, i));
    }
}

/// A configuration validates exactly when it has a pipeline, every pipeline has both
/// shader paths, and no two pipelines, however far apart, share a name. When every
/// shader path is given but two pipelines share a name, the error is a duplicate.
pub proof fn law_valid_config_has_distinct_names(ps: Seq<PipelineDesc>)
    ensures
        spec_validate(ps) is Ok <==> {
            &&& ps.len() > 0
            &&& forall|k: int| 0 <= k < ps.len() ==> ps[k].shaders.vs@.len() > 0 && ps[k].shaders.fs@.len() > 0
            &&& forall|a: int, b: int| 0 <= a < b < ps.len() ==> ps[a].name@ != ps[b].name@
        },
        (forall|k: int| 0 <= k < ps.len() ==> ps[k].shaders.vs@.len() > 0 && ps[k].shaders.fs@.len() > 0)
            && (exists|a: int, b: int| 0 <= a < b < ps.len() && ps[a].name@ == ps[b].name@)
            ==> spec_validate(ps) matches Err(ConfigError::DuplicatePipeline { .. }),
{
    if spec_validate(ps) is Ok {
        assert forall|k: int| 0 <= k < ps.len() implies ps[k].shaders.vs@.len() > 0 && ps[k].shaders.fs@.len() > 0 by {
            lemma_no_fault_from(ps, 0, k);
        }
        assert forall|a: int, b: int| 0 <= a < b < ps.len() implies ps[a].name@ != ps[b].name@ by {
            lemma_no_fault_from(ps, 0, b);
            if ps[a].name@ == ps[b].name@ {
                assert(name_seen_before(ps, b));
            }
        }
    }
    if ps.len() > 0 && (forall|k: int| 0 <= k < ps.len() ==> ps[k].shaders.vs@.len() > 0 && ps[k].shaders.fs@.len() > 0)
        && (forall|a: int, b: int| 0 <= a < b < ps.len() ==> ps[a].name@ != ps[b].name@) {
        lemma_none_when_clean(ps, 0);
    }
    if (forall|k: int| 0 <= k < ps.len() ==> ps[k].shaders.vs@.len() > 0 && ps[k].shaders.fs@.len() > 0)
        && (exists|a: int, b: int| 0 <= a < b < ps.len() && ps[a].name@ == ps[b].name@) {
        let (a, b) = choose|a: int, b: int| 0 <= a < b < ps.len() && ps[a].name@ == ps[b].name@;
        if first_fault_from(ps, 0) is None {
            lemma_no_fault_from(ps, 0, b);
            assert(name_seen_before(ps, b));
        }
        let k = lemma_fault_found(ps, 0);
        assert(ps[k].shaders.vs@.len() > 0 && ps[k].shaders.fs@.len() > 0);
    }
}

/// Basic config validation.
pub fn validate_config(cfg: &EngineConfig) -> (r: Result<(), ConfigError>)
    ensures
        r == spec_validate(cfg.pipelines@),
{
    let ps = &cfg.pipelines;
    if ps.len() == 0 {
        return Err(ConfigError::NoPipelines);
    }
    let ghost s = ps@;
    let mut i: usize = 0;
    while i < ps.len()
        invariant
            s == ps@,
            s == cfg.pipelines@,
            0 < s.len(),
            i <= s.len(),
            first_fault_from(s, 0) == first_fault_from(s, i as int),
        decreases s.len() - i,
    {
        let p = &ps[i];
        assert(*p == s[i as int]);
        if p.shaders.vs.is_empty() {
            assert(s[i as int].shaders.vs@.len() == 0);
            assert(pipeline_fault(s, i as int) == Some(ConfigError::EmptyShaderPath { pipeline: p.name, which: VS_STAGE }));
            proof {
                lemma_first_fault_here(s, i as int);
            }
            return Err(ConfigError::EmptyShaderPath { pipeline: p.name, which: VS_STAGE });
        }
        if p.shaders.fs.is_empty() {
            proof {
                lemma_first_fault_here(s, i as int);
            }
            return Err(ConfigError::EmptyShaderPath { pipeline: p.name, which: FS_STAGE });
        }
        let mut j: usize = 0;
        let mut dup = false;
        while j < i
            invariant
                s == ps@,
                i < s.len(),
                j <= i,
                *p == s[i as int],
                dup ==> name_seen_before(s, i as int),
                !dup ==> forall|m: int| 0 <= m < j ==> s[m].name@ != s[i as int].name@,
            decreases i - j,
        {
            if crate::text::str_eq(ps[j].name, p.name) {
                assert(s[j as int].name@ == s[i as int].name@);
                assert(name_seen_before(s, i as int));
                dup = true;
            }
            j = j + 1;
        }
        if dup {
            proof {
                lemma_first_fault_here(s, i as int);
            }
            return Err(ConfigError::DuplicatePipeline { pipeline: p.name });
        }
        proof {
            lemma_first_fault_skip(s, i as int);
        }
        i = i + 1;
    }
    Ok(())
}

// ---------------------------------------------------------------------------
// Builder
// ---------------------------------------------------------------------------

/// A small, chainable builder to produce an `EngineConfig`.
pub struct EngineBuilder {
    app: Option<&'static str>,
    window: Option<WindowCfg>,
    pipelines: Vec<PipelineDesc>,
    options: BackendOptions,
}

/// What a builder holds so far.
pub struct EngineBuilderView {
    pub app: Option<&'static str>,
    pub window: Option<WindowCfg>,
    pub pipelines: Seq<PipelineDesc>,
    pub options: BackendOptions,
}

impl View for EngineBuilder {
    type V = EngineBuilderView;

    closed spec fn view(&self) -> EngineBuilderView {
        EngineBuilderView {
            app: self.app,
            window: self.window,
            pipelines: self.pipelines@,
            options: self.options,
        }
    }
}

/// The app name a config gets: the one given, else `"Untitled"`.
pub open spec fn app_or_default(app: Option<&'static str>) -> &'static str {
    match app {
        Some(a) => a,
        None => "Untitled",
    }
}

/// The window a config gets: the one given, else 1280x720 with vsync.
pub open spec fn window_or_default(w: Option<WindowCfg>) -> WindowCfg {
    match w {
        Some(w) => w,
        None => WindowCfg { width: 1280, height: 720, vsync: true },
    }
}

impl EngineBuilder {
    pub fn new() -> (r: Self)
        ensures
            r@.app is None,
            r@.window is None,
            r@.pipelines == Seq::<PipelineDesc>::empty(),
            r@.options == no_options(),
    {
        EngineBuilder {
            app: None,
            window: None,
            pipelines: Vec::new(),
            options: BackendOptions::default(),
        }
    }

    pub fn app(self, name: &'static str) -> (r: Self)
        ensures
            r@ == (EngineBuilderView { app: Some(name), ..self@ }),
    {
        let mut s = self;
        s.app = Some(name);
        s
    }

    pub fn window(self, width: u32, height: u32, vsync: bool) -> (r: Self)
        ensures
            r@ == (EngineBuilderView { window: Some(WindowCfg { width, height, vsync }), ..self@ }),
    {
        let mut s = self;
        s.window = Some(WindowCfg { width, height, vsync });
        s
    }

    pub fn add_pipeline(self, desc: PipelineDesc) -> (r: Self)
        ensures
            r@ == (EngineBuilderView { pipelines: self@.pipelines.push(desc), ..self@ }),
    {
        let mut s = self;
        s.pipelines.push(desc);
        s
    }

    /// Replaces all backend options at once.
    pub fn options(self, options: BackendOptions) -> (r: Self)
        ensures
            r@ == (EngineBuilderView { options, ..self@ }),
    {
        let mut s = self;
        s.options = options;
        s
    }

    pub fn present_mode(self, mode: &'static str) -> (r: Self)
        ensures
            r@ == (EngineBuilderView {
                options: BackendOptions { present_mode: Some(mode), ..self@.options },
                ..self@
            }),
    {
        let mut s = self;
        s.options.present_mode = Some(mode);
        s
    }

    pub fn swapchain_images(self, count: u32) -> (r: Self)
        ensures
            r@ == (EngineBuilderView {
                options: BackendOptions { swapchain_images: Some(count), ..self@.options },
                ..self@
            }),
    {
        let mut s = self;
        s.options.swapchain_images = Some(count);
        s
    }

    pub fn color_format(self, fmt: &'static str) -> (r: Self)
        ensures
            r@ == (EngineBuilderView {
                options: BackendOptions { color_format: Some(fmt), ..self@.options },
                ..self@
            }),
    {
        let mut s = self;
        s.options.color_format = Some(fmt);
        s
    }

    pub fn color_space(self, cs: &'static str) -> (r: Self)
        ensures
            r@ == (EngineBuilderView {
                options: BackendOptions { color_space: Some(cs), ..self@.options },
                ..self@
            }),
    {
        let mut s = self;
        s.options.color_space = Some(cs);
        s
    }

    pub fn depth_format(self, fmt: &'static str) -> (r: Self)
        ensures
            r@ == (EngineBuilderView {
                options: BackendOptions { depth_format: Some(fmt), ..self@.options },
                ..self@
            }),
    {
        let mut s = self;
        s.options.depth_format = Some(fmt);
        s
    }

    pub fn msaa_samples(self, samples: u32) -> (r: Self)
        ensures
            r@ == (EngineBuilderView {
                options: BackendOptions { msaa_samples: Some(samples), ..self@.options },
                ..self@
            }),
    {
        let mut s = self;
        s.options.msaa_samples = Some(samples);
        s
    }

    pub fn dynamic_viewport(self, enabled: bool) -> (r: Self)
        ensures
            r@ == (EngineBuilderView {
                options: BackendOptions { dynamic_viewport: Some(enabled), ..self@.options },
                ..self@
            }),
    {
        let mut s = self;
        s.options.dynamic_viewport = Some(enabled);
        s
    }

    pub fn dynamic_scissor(self, enabled: bool) -> (r: Self)
        ensures
            r@ == (EngineBuilderView {
                options: BackendOptions { dynamic_scissor: Some(enabled), ..self@.options },
                ..self@
            }),
    {
        let mut s = self;
        s.options.dynamic_scissor = Some(enabled);
        s
    }

    pub fn present_mode_priority(self, modes: Vec<&'static str>) -> (r: Self)
        ensures
            r@ == (EngineBuilderView {
                options: BackendOptions { present_mode_priority: Some(modes), ..self@.options },
                ..self@
            }),
    {
        let mut s = self;
        s.options.present_mode_priority = Some(modes);
        s
    }

    pub fn adapter_index(self, index: usize) -> (r: Self)
        ensures
            r@ == (EngineBuilderView {
                options: BackendOptions { adapter_index: Some(index), ..self@.options },
                ..self@
            }),
    {
        let mut s = self;
        s.options.adapter_index = Some(index);
        s
    }

    pub fn adapter_preference(self, pref: &'static str) -> (r: Self)
        ensures
            r@ == (EngineBuilderView {
                options: BackendOptions { adapter_preference: Some(pref), ..self@.options },
                ..self@
            }),
    {
        let mut s = self;
        s.options.adapter_preference = Some(pref);
        s
    }

    /// Finishes the config (defaults: app `"Untitled"`, a 1280x720 vsync window) and
    /// validates it.
    pub fn build(self) -> (r: Result<EngineConfig, ConfigError>)
        ensures
            r is Ok <==> spec_validate(self@.pipelines) is Ok,
            r matches Err(e) ==> spec_validate(self@.pipelines) == Err::<(), ConfigError>(e),
            r matches Ok(cfg) ==> {
                &&& cfg.app == app_or_default(self@.app)
                &&& cfg.window == window_or_default(self@.window)
                &&& cfg.pipelines@ == self@.pipelines
                &&& cfg.options == self@.options
            },
    {
        let app = match self.app {
            Some(a) => a,
            None => "Untitled",
        };
        let window = match self.window {
            Some(w) => w,
            None => WindowCfg { width: 1280, height: 720, vsync: true },
        };
        let cfg = EngineConfig { app, window, pipelines: self.pipelines, options: self.options };
        match validate_config(&cfg) {
            Ok(()) => Ok(cfg),
            Err(e) => Err(e),
        }
    }
}

// ---------------------------------------------------------------------------
// Backends and the engine facade
// ---------------------------------------------------------------------------

/// Backend abstraction for creating pipelines and presenting frames.
///
/// Thread-safety: backends are expected to be `Send + Sync + 'static` to enable
/// sharing handles across threads when recording work. The hooks do nothing unless a
/// backend provides them.
pub trait RenderBackend: Send + Sync + 'static {
    fn name() -> &'static str;

    fn create_device() {
    }

    fn create_pipeline(desc: &PipelineDesc) {
    }

    fn present() {
    }
}

/// Vulkan marker backend.
pub struct VulkanBackend;

impl RenderBackend for VulkanBackend {
    fn name() -> (r: &'static str)
        ensures
            r == "vulkan",
    {
        "vulkan"
    }
}

/// Thin facade tagged by backend type.
///
/// `PhantomData<B>` couples Engine's auto-traits (Send/Sync) to the backend so that an
/// Engine can only be sent or shared if its backend supports it.
pub struct Engine<B: RenderBackend> {
    _backend: PhantomData<B>,
}

#[derive(Debug, Clone, PartialEq, Eq, Structural)]
pub enum EngineValidateError {
    NoBindings,
    NoVertexAttrs,
}

/// Structural layout check: some binding and some vertex attribute must be described.
pub open spec fn spec_check_layout(bindings: Seq<BindingDesc>, attrs: Seq<VertexAttr>) -> Result<
    (),
    EngineValidateError,
> {
    if bindings.len() == 0 {
        Err(EngineValidateError::NoBindings)
    } else if attrs.len() == 0 {
        Err(EngineValidateError::NoVertexAttrs)
    } else {
        Ok(())
    }
}

/// Checks that resource bindings and a vertex layout are described at all.
pub fn check_layout(bindings: &[BindingDesc], attrs: &[VertexAttr]) -> (r: Result<
    (),
    EngineValidateError,
>)
    ensures
        r == spec_check_layout(bindings@, attrs@),
{
    if bindings.len() == 0 {
        Err(EngineValidateError::NoBindings)
    } else if attrs.len() == 0 {
        Err(EngineValidateError::NoVertexAttrs)
    } else {
        Ok(())
    }
}

impl<B: RenderBackend> Engine<B> {
    /// Creates the backend's device; the engine itself holds nothing else.
    pub fn new_from_config(_cfg: &EngineConfig) -> (r: Self)
        ensures
            call_ensures(B::create_device, (), ()),
    {
        B::create_device();
        Engine { _backend: PhantomData }
    }

    /// Initializes pipelines as described in the config, in order.
    pub fn init_pipelines(&self, cfg: &EngineConfig)
        ensures
            forall|k: int|
                0 <= k < cfg.pipelines@.len() ==> call_ensures(
                    B::create_pipeline,
                    (&#[trigger] cfg.pipelines@[k],),
                    (),
                ),
    {
        let mut i: usize = 0;
        while i < cfg.pipelines.len()
            invariant
                i <= cfg.pipelines@.len(),
                forall|k: int|
                    0 <= k < i ==> call_ensures(B::create_pipeline, (&#[trigger] cfg.pipelines@[k],), ()),
            decreases cfg.pipelines@.len() - i,
        {
            B::create_pipeline(&cfg.pipelines[i]);
            i = i + 1;
        }
    }

    /// Validates shader-facing resources and the vertex layout against the engine config.
    /// This is a structural validation intended to catch obvious mismatches early.
    pub fn validate_pipelines_with<RB: ResourceBindings, VL: VertexLayout>(
        &self,
        cfg: &EngineConfig,
    ) -> (r: Result<(), EngineValidateError>)
        ensures
            exists|bindings: &'static [BindingDesc], attrs: &'static [VertexAttr]|
                #![trigger call_ensures(RB::bindings, (), bindings), call_ensures(VL::vertex_attrs, (), attrs)]
                call_ensures(RB::bindings, (), bindings) && call_ensures(VL::vertex_attrs, (), attrs)
                    && r == spec_check_layout(bindings@, attrs@),
    {
        check_layout(RB::bindings(), VL::vertex_attrs())
    }

    /// Presents a frame through the backend.
    pub fn frame(&self)
        ensures
            call_ensures(B::present, (), ()),
    {
        B::present();
    }
}

/// Graphics validator for derive-produced binding and vertex-layout types.
pub struct GraphicsValidator<RB, VL>(pub PhantomData<(RB, VL)>);

impl<RB: ResourceBindings, VL: VertexLayout> GraphicsValidator<RB, VL> {
    /// Validates a config against `RB`'s bindings and `VL`'s vertex attributes.
    pub fn validate(cfg: &EngineConfig) -> (r: Result<(), EngineValidateError>)
        ensures
            exists|bindings: &'static [BindingDesc], attrs: &'static [VertexAttr]|
                #![trigger call_ensures(RB::bindings, (), bindings), call_ensures(VL::vertex_attrs, (), attrs)]
                call_ensures(RB::bindings, (), bindings) && call_ensures(VL::vertex_attrs, (), attrs)
                    && r == spec_check_layout(bindings@, attrs@),
    {
        let engine = Engine::<VulkanBackend>::new_from_config(cfg);
        engine.validate_pipelines_with::<RB, VL>(cfg)
    }
}

/// Types that can produce an `EngineConfig` from statically described pipelines and
/// window/app metadata.
pub trait RenderEngineInfo {
    fn engine_config() -> EngineConfig;
}

/// Thread-safe facade that governs frame lifetimes and encoders.
pub trait Renderer: Send + Sync {
    type Frame: Frame;

    fn begin_frame(&self) -> Self::Frame;

    fn end_frame(&self, frame: Self::Frame);
}

/// Per-frame lifetime guard. Creates recording contexts for passes/subpasses.
pub trait Frame {
    /// Backend-specific command recording context.
    type CommandCtx;

    /// Acquires a recording context for a named pass.
    fn encoder_for(&self, pass: &'static str) -> Self::CommandCtx;
}

} // verus!
