//! The player's registry of visualizers and the decisions that its key,
//! gamepad and window events make: visualizer switching, the visualizer
//! picker, the video view and the play queue.
use vstd::prelude::*;
use crate::text::{
    chars_of, chars_eq, string_of, string_views, contains_seq, contains_chars, lowercase, lowercase_chars, trim,
    trim_chars,
};

verus! {

/// The kind of gamepad attached, which decides the button glyphs shown.
#[derive(Debug, Clone, Copy, PartialEq, Eq, Structural)]
pub enum GamepadType {
    Xbox,
    PlayStation,
    Nintendo,
    SteamDeck,
}

/// A mesh that a 3D visualizer draws.
#[derive(Debug, Clone, Copy, PartialEq, Eq, Structural, Hash)]
pub enum Geometry {
    Grid { width: u32, depth: u32 },
    UnitBox,
    NeonRoom,
    SynthwaveRacerScene,
    VuMeterRack,
    NeonCorridorFrames,
    StormRainVolume,
    GlassLyricsScene,
}

/// How a visualizer is drawn: a full-screen shader pass, or instanced meshes.
#[derive(Debug, Clone, Copy, PartialEq, Eq, Structural)]
pub enum PipelineType {
    FullscreenQuad,
    Mesh3D { geometry: Geometry, instances: u32 },
}

/// One visualizer: its id, names, shader file and the data it needs.
#[derive(Clone, Copy, Debug)]
pub struct VisualizerDef {
    pub id: u32,
    pub name: &'static str,
    pub filename: &'static str,
    pub description: &'static str,
    pub requires_history: bool,
    pub requires_fire: bool,
    pub requires_resynth: bool,
    pub requires_ferrofluidsim: bool,
    pub pipeline_type: PipelineType,
}

/// The number of visualizers.
pub const VISUALIZER_COUNT: usize = 12;

/// The visualizers, in picker order.
pub open spec fn visualizer_table() -> Seq<VisualizerDef> {
    seq![
        VisualizerDef { id: 0, name: "Frequency Spectrum", filename: "vis_spectrum.wgsl", description: "Standard 2D FFT spectrum analyzer", requires_history: false, requires_fire: false, requires_resynth: false, requires_ferrofluidsim: false, pipeline_type: PipelineType::FullscreenQuad },
        VisualizerDef { id: 2, name: "CRT Oscilloscope", filename: "vis_oscilloscope.wgsl", description: "2D glowing CRT wave trace", requires_history: true, requires_fire: false, requires_resynth: false, requires_ferrofluidsim: false, pipeline_type: PipelineType::FullscreenQuad },
        VisualizerDef { id: 7, name: "3D CRT Oscilloscope", filename: "vis_3doscilloscope.wgsl", description: "3D waterfall history of waveform", requires_history: true, requires_fire: false, requires_resynth: false, requires_ferrofluidsim: false, pipeline_type: PipelineType::FullscreenQuad },
        VisualizerDef { id: 8, name: "3D Freq Oscilloscope", filename: "vis_3doscilloscope_freq.wgsl", description: "3D topographical frequency view", requires_history: false, requires_fire: false, requires_resynth: true, requires_ferrofluidsim: false, pipeline_type: PipelineType::FullscreenQuad },
        VisualizerDef { id: 1, name: "Retro Fire", filename: "vis_flame.wgsl", description: "Demoscene pixel fire with CRT filter", requires_history: false, requires_fire: true, requires_resynth: false, requires_ferrofluidsim: false, pipeline_type: PipelineType::FullscreenQuad },
        VisualizerDef { id: 6, name: "Fire Simulation", filename: "vis_firesim.wgsl", description: "Multi-channel procedural fire simulation", requires_history: false, requires_fire: true, requires_resynth: false, requires_ferrofluidsim: false, pipeline_type: PipelineType::FullscreenQuad },
        VisualizerDef { id: 9, name: "Solar Flare", filename: "vis_solar.wgsl", description: "Audio-reactive raymarched sun", requires_history: true, requires_fire: false, requires_resynth: false, requires_ferrofluidsim: false, pipeline_type: PipelineType::FullscreenQuad },
        VisualizerDef { id: 3, name: "Spatial Vectors", filename: "vis_spatial.wgsl", description: "Multi-channel spatial audio map", requires_history: false, requires_fire: false, requires_resynth: false, requires_ferrofluidsim: false, pipeline_type: PipelineType::FullscreenQuad },
        VisualizerDef { id: 4, name: "Chrome Ferrofluid", filename: "vis_ferrofluid.wgsl", description: "Raymarched liquid metal simulation", requires_history: false, requires_fire: false, requires_resynth: false, requires_ferrofluidsim: false, pipeline_type: PipelineType::FullscreenQuad },
        VisualizerDef { id: 10, name: "Ferrofluid Particle Sim", filename: "vis_ferrofluidsim.wgsl", description: "Compute physics droplet simulation", requires_history: false, requires_fire: false, requires_resynth: false, requires_ferrofluidsim: true, pipeline_type: PipelineType::FullscreenQuad },
        VisualizerDef { id: 5, name: "Neon Corridor", filename: "vis_neon.wgsl", description: "Raymarched neon sci-fi tunnel", requires_history: false, requires_fire: false, requires_resynth: false, requires_ferrofluidsim: false, pipeline_type: PipelineType::FullscreenQuad },
        VisualizerDef { id: 23, name: "3D Glass Water Lyrics", filename: "vis_lyrics.wgsl", description: "Extruded glass lyric glyphs over water", requires_history: false, requires_fire: false, requires_resynth: false, requires_ferrofluidsim: false, pipeline_type: PipelineType::Mesh3D { geometry: Geometry::GlassLyricsScene, instances: 1 } },
    ]
}

/// The visualizers, in picker order.
pub fn visualizers() -> (r: Vec<VisualizerDef>)
    ensures
        r@ == visualizer_table(),
        r@.len() == VISUALIZER_COUNT,
{
    let r = vec![
        VisualizerDef { id: 0, name: "Frequency Spectrum", filename: "vis_spectrum.wgsl", description: "Standard 2D FFT spectrum analyzer", requires_history: false, requires_fire: false, requires_resynth: false, requires_ferrofluidsim: false, pipeline_type: PipelineType::FullscreenQuad },
        VisualizerDef { id: 2, name: "CRT Oscilloscope", filename: "vis_oscilloscope.wgsl", description: "2D glowing CRT wave trace", requires_history: true, requires_fire: false, requires_resynth: false, requires_ferrofluidsim: false, pipeline_type: PipelineType::FullscreenQuad },
        VisualizerDef { id: 7, name: "3D CRT Oscilloscope", filename: "vis_3doscilloscope.wgsl", description: "3D waterfall history of waveform", requires_history: true, requires_fire: false, requires_resynth: false, requires_ferrofluidsim: false, pipeline_type: PipelineType::FullscreenQuad },
        VisualizerDef { id: 8, name: "3D Freq Oscilloscope", filename: "vis_3doscilloscope_freq.wgsl", description: "3D topographical frequency view", requires_history: false, requires_fire: false, requires_resynth: true, requires_ferrofluidsim: false, pipeline_type: PipelineType::FullscreenQuad },
        VisualizerDef { id: 1, name: "Retro Fire", filename: "vis_flame.wgsl", description: "Demoscene pixel fire with CRT filter", requires_history: false, requires_fire: true, requires_resynth: false, requires_ferrofluidsim: false, pipeline_type: PipelineType::FullscreenQuad },
        VisualizerDef { id: 6, name: "Fire Simulation", filename: "vis_firesim.wgsl", description: "Multi-channel procedural fire simulation", requires_history: false, requires_fire: true, requires_resynth: false, requires_ferrofluidsim: false, pipeline_type: PipelineType::FullscreenQuad },
        VisualizerDef { id: 9, name: "Solar Flare", filename: "vis_solar.wgsl", description: "Audio-reactive raymarched sun", requires_history: true, requires_fire: false, requires_resynth: false, requires_ferrofluidsim: false, pipeline_type: PipelineType::FullscreenQuad },
        VisualizerDef { id: 3, name: "Spatial Vectors", filename: "vis_spatial.wgsl", description: "Multi-channel spatial audio map", requires_history: false, requires_fire: false, requires_resynth: false, requires_ferrofluidsim: false, pipeline_type: PipelineType::FullscreenQuad },
        VisualizerDef { id: 4, name: "Chrome Ferrofluid", filename: "vis_ferrofluid.wgsl", description: "Raymarched liquid metal simulation", requires_history: false, requires_fire: false, requires_resynth: false, requires_ferrofluidsim: false, pipeline_type: PipelineType::FullscreenQuad },
        VisualizerDef { id: 10, name: "Ferrofluid Particle Sim", filename: "vis_ferrofluidsim.wgsl", description: "Compute physics droplet simulation", requires_history: false, requires_fire: false, requires_resynth: false, requires_ferrofluidsim: true, pipeline_type: PipelineType::FullscreenQuad },
        VisualizerDef { id: 5, name: "Neon Corridor", filename: "vis_neon.wgsl", description: "Raymarched neon sci-fi tunnel", requires_history: false, requires_fire: false, requires_resynth: false, requires_ferrofluidsim: false, pipeline_type: PipelineType::FullscreenQuad },
        VisualizerDef { id: 23, name: "3D Glass Water Lyrics", filename: "vis_lyrics.wgsl", description: "Extruded glass lyric glyphs over water", requires_history: false, requires_fire: false, requires_resynth: false, requires_ferrofluidsim: false, pipeline_type: PipelineType::Mesh3D { geometry: Geometry::GlassLyricsScene, instances: 1 } },
    ];
    assert(r@ =~= visualizer_table());
    r
}


/// The glyph(s) of the icon font for a gamepad `action`: face buttons and
/// bumpers by the pad's layout, system buttons and D-pad hints the same on
/// every pad; any other action's own text.
pub open spec fn gamepad_icon_spec(g: GamepadType, action: Seq<char>) -> Seq<char> {
    if action == "A"@ {
        match g {
            GamepadType::PlayStation => "\u{e997}"@,
            GamepadType::Nintendo => "\u{e974}"@,
            _ => "\u{e994}"@,
        }
    } else if action == "B"@ {
        match g {
            GamepadType::PlayStation => "\u{e999}"@,
            GamepadType::Nintendo => "\u{e994}"@,
            _ => "\u{e974}"@,
        }
    } else if action == "X"@ {
        match g {
            GamepadType::PlayStation => "\u{e998}"@,
            GamepadType::Nintendo => "\u{e996}"@,
            _ => "\u{e995}"@,
        }
    } else if action == "Y"@ {
        match g {
            GamepadType::PlayStation => "\u{e99a}"@,
            GamepadType::Nintendo => "\u{e995}"@,
            _ => "\u{e996}"@,
        }
    } else if action == "L1"@ {
        match g {
            GamepadType::PlayStation => "\u{e99d}"@,
            GamepadType::Nintendo => "\u{e99c}"@,
            _ => "\u{e99f}"@,
        }
    } else if action == "R1"@ {
        match g {
            GamepadType::PlayStation => "\u{e9a4}"@,
            GamepadType::Nintendo => "\u{e9a5}"@,
            _ => "\u{e9a2}"@,
        }
    } else if action == "Select"@ {
        "\u{e9a9}"@
    } else if action == "Start"@ {
        "\u{e9a8}"@
    } else if action == "D-Pad L/R"@ {
        "\u{e9af} \u{e9ad}"@
    } else if action == "D-Pad U/D"@ {
        "\u{e9ac} \u{e9ae}"@
    } else {
        action
    }
}

fn pick(g: GamepadType, ps: &'static str, nin: &'static str, other: &'static str) -> (r: &'static str)
    ensures
        r == match g {
            GamepadType::PlayStation => ps,
            GamepadType::Nintendo => nin,
            _ => other,
        },
{
    match g {
        GamepadType::PlayStation => ps,
        GamepadType::Nintendo => nin,
        _ => other,
    }
}

fn is_action(a: &Vec<char>, lit: &'static str) -> (r: bool)
    ensures
        r == (a@ == lit@),
{
    chars_eq(a, &chars_of(lit))
}

/// The icon-font text shown for a gamepad action on a pad of type `g_type`.
pub fn gamepad_icon(g_type: GamepadType, action: &str) -> (r: String)
    ensures
        r@ == gamepad_icon_spec(g_type, action@),
{
    let a = chars_of(action);
    let glyph: &str = if is_action(&a, "A") {
        pick(g_type, "\u{e997}", "\u{e974}", "\u{e994}")
    } else if is_action(&a, "B") {
        pick(g_type, "\u{e999}", "\u{e994}", "\u{e974}")
    } else if is_action(&a, "X") {
        pick(g_type, "\u{e998}", "\u{e996}", "\u{e995}")
    } else if is_action(&a, "Y") {
        pick(g_type, "\u{e99a}", "\u{e995}", "\u{e996}")
    } else if is_action(&a, "L1") {
        pick(g_type, "\u{e99d}", "\u{e99c}", "\u{e99f}")
    } else if is_action(&a, "R1") {
        pick(g_type, "\u{e9a4}", "\u{e9a5}", "\u{e9a2}")
    } else if is_action(&a, "Select") {
        "\u{e9a9}"
    } else if is_action(&a, "Start") {
        "\u{e9a8}"
    } else if is_action(&a, "D-Pad L/R") {
        "\u{e9af} \u{e9ad}"
    } else if is_action(&a, "D-Pad U/D") {
        "\u{e9ac} \u{e9ae}"
    } else {
        action
    };
    glyph.to_owned()
}


/// `x` brought back into `0..n`, for `0 <= x < 2n`.
pub open spec fn wrap(x: int, n: int) -> int {
    if x >= n {
        x - n
    } else {
        x
    }
}

/// Where switching forward lands, looking at the positions `d, d+1, .., n`
/// steps after `cur` (cyclically): the first enabled one, or `cur` itself
/// when none is.
pub open spec fn next_scan(cur: int, en: Seq<bool>, d: int) -> int
    decreases en.len() + 1 - d,
{
    if d < 1 || d > en.len() {
        cur
    } else if en[wrap(cur + d, en.len() as int)] {
        wrap(cur + d, en.len() as int)
    } else {
        next_scan(cur, en, d + 1)
    }
}

/// Where switching backward lands, looking at the positions `d, d+1, .., n`
/// steps before `cur` (cyclically): the first enabled one, or `cur` itself
/// when none is.
pub open spec fn prev_scan(cur: int, en: Seq<bool>, d: int) -> int
    decreases en.len() + 1 - d,
{
    if d < 1 || d > en.len() {
        cur
    } else if en[wrap(cur + en.len() - d, en.len() as int)] {
        wrap(cur + en.len() - d, en.len() as int)
    } else {
        prev_scan(cur, en, d + 1)
    }
}

/// The next enabled visualizer after `cur`, cyclically (`cur` itself when no
/// other is enabled and it is).
pub open spec fn next_enabled(cur: int, en: Seq<bool>) -> int {
    next_scan(cur, en, 1)
}

/// The previous enabled visualizer before `cur`, cyclically.
pub open spec fn prev_enabled(cur: int, en: Seq<bool>) -> int {
    prev_scan(cur, en, 1)
}

/// Switches to the next enabled visualizer (Arrow Up / D-pad Up).
pub fn next_enabled_visualizer(current: usize, enabled: &Vec<bool>) -> (r: usize)
    requires
        current < enabled.len(),
    ensures
        r == next_enabled(current as int, enabled@),
        r < enabled.len(),
{
    let len = enabled.len();
    let mut idx = current;
    let mut step: usize = 0;
    while step < len
        invariant
            len == enabled.len(),
            current < len,
            step <= len,
            idx < len,
            step == 0 ==> idx == current,
            step > 0 ==> idx == wrap(current + step, len as int),
            next_enabled(current as int, enabled@) == next_scan(current as int, enabled@, step + 1),
        decreases len - step,
    {
        idx = if idx + 1 == len {
            0
        } else {
            idx + 1
        };
        step = step + 1;
        assert(idx == wrap(current + step, len as int));
        if enabled[idx] {
            return idx;
        }
    }
    assert(step == len);
    idx
}

/// Switches to the previous enabled visualizer (Arrow Down / D-pad Down).
pub fn prev_enabled_visualizer(current: usize, enabled: &Vec<bool>) -> (r: usize)
    requires
        current < enabled.len(),
    ensures
        r == prev_enabled(current as int, enabled@),
        r < enabled.len(),
{
    let len = enabled.len();
    let mut idx = current;
    let mut step: usize = 0;
    while step < len
        invariant
            len == enabled.len(),
            current < len,
            step <= len,
            idx < len,
            step == 0 ==> idx == current,
            step > 0 ==> idx == wrap(current + len - step, len as int),
            prev_enabled(current as int, enabled@) == prev_scan(current as int, enabled@, step + 1),
        decreases len - step,
    {
        idx = if idx == 0 {
            len - 1
        } else {
            idx - 1
        };
        step = step + 1;
        assert(idx == wrap(current + len - step, len as int));
        if enabled[idx] {
            return idx;
        }
    }
    assert(step == len);
    idx
}

proof fn lemma_next_scan_at(cur: int, en: Seq<bool>, d: int, k: int)
    requires
        1 <= d <= k <= en.len(),
        en[wrap(cur + k, en.len() as int)],
        forall|e: int| d <= e < k ==> !en[#[trigger] wrap(cur + e, en.len() as int)],
    ensures
        next_scan(cur, en, d) == wrap(cur + k, en.len() as int),
    decreases k - d,
{
    if d < k {
        lemma_next_scan_at(cur, en, d + 1, k);
    }
}

proof fn lemma_prev_scan_at(cur: int, en: Seq<bool>, d: int, k: int)
    requires
        1 <= d <= k <= en.len(),
        en[wrap(cur + en.len() - k, en.len() as int)],
        forall|e: int| d <= e < k ==> !en[#[trigger] wrap(cur + en.len() - e, en.len() as int)],
    ensures
        prev_scan(cur, en, d) == wrap(cur + en.len() - k, en.len() as int),
    decreases k - d,
{
    if d < k {
        lemma_prev_scan_at(cur, en, d + 1, k);
    }
}

proof fn first_enabled_after(cur: int, en: Seq<bool>, d: int) -> (k: int)
    requires
        0 <= cur < en.len(),
        1 <= d <= en.len(),
        en[cur],
        forall|e: int| 1 <= e < d ==> !en[#[trigger] wrap(cur + e, en.len() as int)],
    ensures
        d <= k <= en.len(),
        en[wrap(cur + k, en.len() as int)],
        forall|e: int| 1 <= e < k ==> !en[#[trigger] wrap(cur + e, en.len() as int)],
    decreases en.len() - d,
{
    let n = en.len() as int;
    if en[wrap(cur + d, n)] {
        d
    } else if d == n {
        assert(wrap(cur + n, n) == cur);
        d
    } else {
        first_enabled_after(cur, en, d + 1)
    }
}

proof fn first_enabled_before(cur: int, en: Seq<bool>, d: int) -> (k: int)
    requires
        0 <= cur < en.len(),
        1 <= d <= en.len(),
        en[cur],
        forall|e: int| 1 <= e < d ==> !en[#[trigger] wrap(cur + en.len() - e, en.len() as int)],
    ensures
        d <= k <= en.len(),
        en[wrap(cur + en.len() - k, en.len() as int)],
        forall|e: int| 1 <= e < k ==> !en[#[trigger] wrap(cur + en.len() - e, en.len() as int)],
    decreases en.len() - d,
{
    let n = en.len() as int;
    if en[wrap(cur + n - d, n)] {
        d
    } else if d == n {
        assert(wrap(cur + n - n, n) == cur);
        d
    } else {
        first_enabled_before(cur, en, d + 1)
    }
}

/// Switching forward then backward returns to an enabled visualizer, and so
/// does switching backward then forward.
pub proof fn law_switch_round_trip(cur: int, en: Seq<bool>)
    requires
        0 <= cur < en.len(),
        en[cur],
    ensures
        prev_enabled(next_enabled(cur, en), en) == cur,
        next_enabled(prev_enabled(cur, en), en) == cur,
{
    let n = en.len() as int;
    let k = first_enabled_after(cur, en, 1);
    lemma_next_scan_at(cur, en, 1, k);
    let j = wrap(cur + k, n);
    assert(wrap(j + n - k, n) == cur);
    assert forall|e: int| 1 <= e < k implies !en[#[trigger] wrap(j + n - e, n)] by {
        assert(wrap(j + n - e, n) == wrap(cur + (k - e), n));
    }
    lemma_prev_scan_at(j, en, 1, k);
    let k2 = first_enabled_before(cur, en, 1);
    lemma_prev_scan_at(cur, en, 1, k2);
    let j2 = wrap(cur + n - k2, n);
    assert(wrap(j2 + k2, n) == cur);
    assert forall|e: int| 1 <= e < k2 implies !en[#[trigger] wrap(j2 + e, n)] by {
        assert(wrap(j2 + e, n) == wrap(cur + n - (k2 - e), n));
    }
    lemma_next_scan_at(j2, en, 1, k2);
}

/// Switching lands on an enabled visualizer whenever one is enabled.
pub proof fn law_switch_lands_on_enabled(cur: int, en: Seq<bool>, some: int)
    requires
        0 <= cur < en.len(),
        0 <= some < en.len(),
        en[some],
    ensures
        0 <= next_enabled(cur, en) < en.len(),
        en[next_enabled(cur, en)],
        0 <= prev_enabled(cur, en) < en.len(),
        en[prev_enabled(cur, en)],
{
    let n = en.len() as int;
    let k = if some > cur {
        some - cur
    } else {
        some + n - cur
    };
    assert(wrap(cur + k, n) == some);
    lemma_next_found(cur, en, 1, k);
    let k2 = if some < cur {
        cur - some
    } else {
        cur + n - some
    };
    assert(wrap(cur + n - k2, n) == some);
    lemma_prev_found(cur, en, 1, k2);
}

proof fn lemma_next_found(cur: int, en: Seq<bool>, d: int, k: int)
    requires
        0 <= cur < en.len(),
        1 <= d <= k <= en.len(),
        en[wrap(cur + k, en.len() as int)],
    ensures
        0 <= next_scan(cur, en, d) < en.len(),
        en[next_scan(cur, en, d)],
    decreases k - d,
{
    if !en[wrap(cur + d, en.len() as int)] {
        lemma_next_found(cur, en, d + 1, k);
    }
}

proof fn lemma_prev_found(cur: int, en: Seq<bool>, d: int, k: int)
    requires
        0 <= cur < en.len(),
        1 <= d <= k <= en.len(),
        en[wrap(cur + en.len() - k, en.len() as int)],
    ensures
        0 <= prev_scan(cur, en, d) < en.len(),
        en[prev_scan(cur, en, d)],
    decreases k - d,
{
    if !en[wrap(cur + en.len() - d, en.len() as int)] {
        lemma_prev_found(cur, en, d + 1, k);
    }
}


/// Moves the picker cursor up one entry, wrapping from the first to the last.
pub fn picker_cursor_up(cursor: usize, count: usize) -> (r: usize)
    requires
        cursor < count,
    ensures
        r == (if cursor == 0 {
            count - 1
        } else {
            cursor - 1
        }),
        r < count,
{
    if cursor == 0 {
        count - 1
    } else {
        cursor - 1
    }
}

/// Moves the picker cursor down one entry, wrapping from the last to the first.
pub fn picker_cursor_down(cursor: usize, count: usize) -> (r: usize)
    requires
        cursor < count,
    ensures
        r == (cursor + 1) % (count as int),
        r < count,
{
    (cursor + 1) % count
}

/// Moving the picker cursor down undoes moving it up, and the other way round.
pub proof fn law_picker_cursor_round_trip(cursor: int, count: int)
    requires
        0 <= cursor < count,
    ensures
        ({
            let up = if cursor == 0 {
                count - 1
            } else {
                cursor - 1
            };
            (up + 1) % count == cursor
        }),
        ({
            let down = (cursor + 1) % count;
            (if down == 0 {
                count - 1
            } else {
                down - 1
            }) == cursor
        }),
{
    if cursor + 1 == count {
        assert((cursor + 1) % count == 0) by {
            vstd::arithmetic::div_mod::lemma_mod_self_0(count);
        }
    } else {
        vstd::arithmetic::div_mod::lemma_small_mod((cursor + 1) as nat, count as nat);
    }
    if cursor == 0 {
        vstd::arithmetic::div_mod::lemma_mod_self_0(count);
    } else {
        vstd::arithmetic::div_mod::lemma_small_mod(cursor as nat, count as nat);
    }
}

/// Flips whether visualizer `idx` takes part in switching; the first one
/// (the spectrum) is always enabled and stays so.
pub fn toggle_visualizer_enabled(enabled: &mut Vec<bool>, idx: usize)
    requires
        idx < old(enabled).len(),
    ensures
        final(enabled)@ == (if idx == 0 {
            old(enabled)@
        } else {
            old(enabled)@.update(idx as int, !old(enabled)@[idx as int])
        }),
{
    if idx != 0 {
        let v = !enabled[idx];
        enabled.set(idx, v);
    }
}

/// Enables every visualizer.
pub fn enable_all_visualizers(enabled: &mut Vec<bool>)
    ensures
        final(enabled)@.len() == old(enabled)@.len(),
        forall|i: int| 0 <= i < final(enabled)@.len() ==> final(enabled)@[i],
{
    let n = enabled.len();
    let mut i: usize = 0;
    while i < n
        invariant
            n == old(enabled)@.len(),
            enabled@.len() == n,
            i <= n,
            forall|j: int| 0 <= j < i ==> enabled@[j],
        decreases n - i,
    {
        enabled.set(i, true);
        i = i + 1;
    }
}

/// Disables every visualizer but the first (the spectrum, always enabled).
pub fn enable_only_first_visualizer(enabled: &mut Vec<bool>)
    ensures
        final(enabled)@.len() == old(enabled)@.len(),
        forall|i: int| 0 <= i < final(enabled)@.len() ==> final(enabled)@[i] == (i == 0),
{
    let n = enabled.len();
    let mut i: usize = 0;
    while i < n
        invariant
            n == old(enabled)@.len(),
            enabled@.len() == n,
            i <= n,
            forall|j: int| 0 <= j < i ==> enabled@[j] == (j == 0),
        decreases n - i,
    {
        enabled.set(i, i == 0);
        i = i + 1;
    }
}

/// Toggling the same visualizer twice changes nothing, and no toggle, "enable
/// all" or "enable only the first" ever disables the first visualizer.
pub proof fn law_toggle_twice_and_first_enabled(en: Seq<bool>, idx: int)
    requires
        0 <= idx < en.len(),
    ensures
        ({
            let once = if idx == 0 {
                en
            } else {
                en.update(idx, !en[idx])
            };
            let twice = if idx == 0 {
                once
            } else {
                once.update(idx, !once[idx])
            };
            twice == en
        }),
        en[0] ==> (if idx == 0 {
            en
        } else {
            en.update(idx, !en[idx])
        })[0],
{
    if idx != 0 {
        assert(en.update(idx, !en[idx]).update(idx, !en.update(idx, !en[idx])[idx]) =~= en);
    }
}

/// The next video view (V key / X button): with a video stream the four views
/// cycle; without one, the audio view.
pub fn next_video_mode(mode: u32, has_video: bool) -> (r: u32)
    ensures
        r == (if has_video {
            ((mode + 1) % 4) as u32
        } else {
            0
        }),
{
    if has_video {
        ((mode as u64 + 1) % 4) as u32
    } else {
        0
    }
}


/// The play queue's state, mathematically.
pub struct QueueModel {
    pub playlist: Seq<Seq<char>>,
    pub index: int,
    pub load_request: Option<Seq<char>>,
    pub file_loaded: bool,
    pub track_ended: bool,
}

/// A queue state with the given parts.
pub open spec fn queue_of(
    playlist: Seq<Seq<char>>,
    index: int,
    load_request: Option<Seq<char>>,
    file_loaded: bool,
    track_ended: bool,
) -> QueueModel {
    QueueModel { playlist, index, load_request, file_loaded, track_ended }
}

/// A file dropped on the window: an empty queue gets just that file, and it is
/// loaded; otherwise the file is appended, and loaded only when nothing is
/// loaded yet.
pub open spec fn drop_file_spec(q: QueueModel, path: Seq<char>) -> QueueModel {
    if q.playlist.len() == 0 {
        queue_of(seq![path], 0, Some(path), true, q.track_ended)
    } else if !q.file_loaded {
        queue_of(q.playlist.push(path), q.playlist.len() as int, Some(path), true, q.track_ended)
    } else {
        queue_of(q.playlist.push(path), q.index, q.load_request, true, q.track_ended)
    }
}

/// The previous track (Ctrl+Left / L1): when not at the first track, step back
/// and load it.
pub open spec fn previous_track_spec(q: QueueModel) -> QueueModel {
    if q.index > 0 {
        queue_of(q.playlist, q.index - 1, Some(q.playlist[q.index - 1]), q.file_loaded, false)
    } else {
        q
    }
}

/// Skipping the track (Ctrl+Right / R1) marks it as ended.
pub open spec fn skip_track_spec(q: QueueModel) -> QueueModel {
    queue_of(q.playlist, q.index, q.load_request, q.file_loaded, true)
}

/// Once per frame: an ended track moves the queue to the next entry and
/// requests it when there is one; then the pending request is taken (the
/// first component) and cleared.
pub open spec fn take_load_request_spec(q: QueueModel) -> (Option<Seq<char>>, QueueModel) {
    let (index, request) = if q.track_ended {
        (
            q.index + 1,
            if q.index + 1 < q.playlist.len() {
                Some(q.playlist[q.index + 1])
            } else {
                q.load_request
            },
        )
    } else {
        (q.index, q.load_request)
    };
    (request, queue_of(q.playlist, index, None, q.file_loaded, false))
}

/// Files chosen in the in-app browser: appended when asked to and the queue
/// is not empty; otherwise, when there are any, they replace the queue and
/// the first is loaded.
pub open spec fn load_files_spec(q: QueueModel, paths: Seq<Seq<char>>, append: bool) -> QueueModel {
    if append && q.playlist.len() > 0 {
        queue_of(q.playlist + paths, q.index, q.load_request, true, q.track_ended)
    } else if paths.len() > 0 {
        queue_of(paths, 0, Some(paths[0]), true, q.track_ended)
    } else {
        queue_of(q.playlist, q.index, q.load_request, true, q.track_ended)
    }
}

/// Files chosen in the system file picker: nothing happens when none were
/// chosen; otherwise as in the in-app browser.
pub open spec fn picked_files_spec(q: QueueModel, paths: Seq<Seq<char>>, append: bool) -> QueueModel {
    if paths.len() == 0 {
        q
    } else {
        load_files_spec(q, paths, append)
    }
}

/// The play queue: the playlist, the current entry, the pending load request
/// and whether a file is loaded and whether the current track has ended.
pub struct PlayQueue {
    pub playlist: Vec<String>,
    pub playlist_index: usize,
    pub load_request: Option<String>,
    pub file_loaded: bool,
    pub track_ended: bool,
}

/// The text of an optional string.
pub open spec fn opt_string(o: Option<String>) -> Option<Seq<char>> {
    match o {
        Some(s) => Some(s@),
        None => None,
    }
}

fn copy_str(s: &String) -> (r: String)
    ensures
        r@ == s@,
{
    s.clone()
}

impl PlayQueue {
    /// The queue's state, mathematically.
    pub open spec fn model(&self) -> QueueModel {
        queue_of(
            string_views(self.playlist@),
            self.playlist_index as int,
            opt_string(self.load_request),
            self.file_loaded,
            self.track_ended,
        )
    }

    /// A queue holding `playlist` (the files given on the command line), at
    /// its first entry, with nothing loaded or requested yet.
    pub fn new(playlist: Vec<String>) -> (r: PlayQueue)
        ensures
            r.model() == queue_of(string_views(playlist@), 0, None, false, false),
    {
        PlayQueue { playlist, playlist_index: 0, load_request: None, file_loaded: false, track_ended: false }
    }

    /// A file dropped on the window (see `drop_file_spec`).
    pub fn drop_file(&mut self, path: String)
        ensures
            final(self).model() == drop_file_spec(old(self).model(), path@),
    {
        let ghost before = self.playlist@;
        if self.playlist.len() == 0 {
            let requested = copy_str(&path);
            let mut list: Vec<String> = Vec::new();
            list.push(path);
            self.playlist = list;
            self.playlist_index = 0;
            self.load_request = Some(requested);
            assert(string_views(self.playlist@) =~= seq![requested@]);
        } else {
            let requested = copy_str(&path);
            self.playlist.push(path);
            assert(string_views(self.playlist@) =~= string_views(before).push(requested@));
            if !self.file_loaded {
                self.playlist_index = self.playlist.len() - 1;
                self.load_request = Some(requested);
            }
        }
        self.file_loaded = true;
    }

    /// The previous track (see `previous_track_spec`).
    pub fn previous_track(&mut self)
        requires
            old(self).playlist_index <= old(self).playlist.len(),
        ensures
            final(self).model() == previous_track_spec(old(self).model()),
    {
        if self.playlist_index > 0 {
            self.playlist_index = self.playlist_index - 1;
            self.load_request = Some(copy_str(&self.playlist[self.playlist_index]));
            self.track_ended = false;
        }
    }

    /// Skips the current track (see `skip_track_spec`).
    pub fn skip_track(&mut self)
        ensures
            final(self).model() == skip_track_spec(old(self).model()),
    {
        self.track_ended = true;
    }

    /// Advances past an ended track and takes the pending load request (see
    /// `take_load_request_spec`).
    pub fn take_load_request(&mut self) -> (r: Option<String>)
        requires
            old(self).track_ended ==> old(self).playlist_index < usize::MAX,
        ensures
            (opt_string(r), final(self).model()) == take_load_request_spec(old(self).model()),
    {
        if self.track_ended {
            self.track_ended = false;
            self.playlist_index = self.playlist_index + 1;
            if self.playlist_index < self.playlist.len() {
                self.load_request = Some(copy_str(&self.playlist[self.playlist_index]));
            }
        }
        let r = self.load_request.take();
        r
    }

    /// Files chosen in the in-app browser (see `load_files_spec`).
    pub fn load_files(&mut self, paths: Vec<String>, append: bool)
        ensures
            final(self).model() == load_files_spec(old(self).model(), string_views(paths@), append),
    {
        let ghost before = self.playlist@;
        if append && self.playlist.len() > 0 {
            let mut extra = paths;
            let ghost ev = extra@;
            self.playlist.append(&mut extra);
            assert(string_views(self.playlist@) =~= string_views(before) + string_views(ev));
        } else if paths.len() > 0 {
            let first = copy_str(&paths[0]);
            self.playlist = paths;
            self.playlist_index = 0;
            self.load_request = Some(first);
        }
        self.file_loaded = true;
    }

    /// Files chosen in the system file picker (see `picked_files_spec`).
    pub fn picked_files(&mut self, paths: Vec<String>, append: bool)
        ensures
            final(self).model() == picked_files_spec(old(self).model(), string_views(paths@), append),
    {
        if paths.len() > 0 {
            self.load_files(paths, append);
        }
    }
}

/// Stepping back a track, skipping it, and taking the next request returns to
/// the track that was current and requests it again.
pub proof fn law_previous_then_skip_returns(q: QueueModel)
    requires
        0 < q.index < q.playlist.len(),
    ensures
        ({
            let r = take_load_request_spec(skip_track_spec(previous_track_spec(q)));
            r.0 == Some(q.playlist[q.index]) && r.1.index == q.index && r.1.playlist == q.playlist
        }),
{
}

/// The queue's position stays within the playlist or just past its end (where
/// stepping back is safe) under every operation, except that taking the
/// request after the track at the very end has ended moves one further.
pub proof fn law_queue_position_in_range(q: QueueModel, path: Seq<char>, paths: Seq<Seq<char>>, append: bool)
    requires
        0 <= q.index <= q.playlist.len(),
    ensures
        0 <= drop_file_spec(q, path).index <= drop_file_spec(q, path).playlist.len(),
        0 <= previous_track_spec(q).index <= previous_track_spec(q).playlist.len(),
        0 <= skip_track_spec(q).index <= skip_track_spec(q).playlist.len(),
        0 <= load_files_spec(q, paths, append).index <= load_files_spec(q, paths, append).playlist.len(),
        0 <= picked_files_spec(q, paths, append).index <= picked_files_spec(q, paths, append).playlist.len(),
        !(q.track_ended && q.index == q.playlist.len()) ==> 0 <= take_load_request_spec(q).1.index
            <= take_load_request_spec(q).1.playlist.len(),
{
}

/// Appending chosen files to a non-empty queue puts them after the old
/// playlist, which stays as it was, entry by entry; the current position and
/// request are kept. Replacing the queue (when not appending, or when it is
/// empty) with a non-empty choice starts at its first file and requests it.
pub proof fn law_load_files_append_or_replace(q: QueueModel, paths: Seq<Seq<char>>, append: bool)
    ensures
        append && q.playlist.len() > 0 ==> {
            let r = load_files_spec(q, paths, true);
            &&& r.playlist == q.playlist + paths
            &&& r.playlist.len() == q.playlist.len() + paths.len()
            &&& forall|i: int| 0 <= i < q.playlist.len() ==> #[trigger] r.playlist[i] == q.playlist[i]
            &&& forall|i: int| 0 <= i < paths.len() ==> #[trigger] r.playlist[q.playlist.len() + i] == paths[i]
            &&& r.index == q.index
            &&& r.load_request == q.load_request
            &&& r.file_loaded
        },
        !(append && q.playlist.len() > 0) && paths.len() > 0 ==> {
            let r = load_files_spec(q, paths, append);
            &&& r.playlist == paths
            &&& r.index == 0
            &&& r.load_request == Some(paths[0])
            &&& r.file_loaded
        },
        append && q.playlist.len() > 0 && paths.len() > 0 ==> picked_files_spec(q, paths, true).playlist
            == q.playlist + paths,
{
}

/// A file dropped on a non-empty queue goes at its end, the old playlist
/// kept as it was; it is requested, and becomes current, only when nothing is
/// loaded. When a track ends, taking the next request moves one entry on and
/// requests that entry, if there is one; otherwise the pending request (if
/// any) is taken, and the position stays.
pub proof fn law_queue_appends_and_advances(q: QueueModel, path: Seq<char>)
    ensures
        q.playlist.len() > 0 ==> drop_file_spec(q, path).playlist == q.playlist.push(path),
        q.playlist.len() > 0 && q.file_loaded ==> drop_file_spec(q, path).index == q.index
            && drop_file_spec(q, path).load_request == q.load_request,
        q.playlist.len() > 0 && !q.file_loaded ==> drop_file_spec(q, path).index == q.playlist.len()
            && drop_file_spec(q, path).load_request == Some(path),
        q.track_ended && 0 <= q.index + 1 < q.playlist.len() ==> take_load_request_spec(q).0 == Some(
            q.playlist[q.index + 1],
        ) && take_load_request_spec(q).1.index == q.index + 1 && take_load_request_spec(q).1.playlist
            == q.playlist,
        !q.track_ended ==> take_load_request_spec(q).0 == q.load_request && take_load_request_spec(q).1.index
            == q.index && take_load_request_spec(q).1.load_request is None,
{
}

/// A file dropped on an empty queue becomes the whole queue and is requested.
pub proof fn law_drop_on_empty_queue(q: QueueModel, path: Seq<char>)
    requires
        q.playlist.len() == 0,
    ensures
        drop_file_spec(q, path).playlist == seq![path],
        drop_file_spec(q, path).load_request == Some(path),
        drop_file_spec(q, path).file_loaded,
{
}


/// Whether the visualizer `v` answers the name `query` (the `--vis` option):
/// its file name or its name contains the query, all in lower case.
pub open spec fn visualizer_matches(v: VisualizerDef, query: Seq<char>) -> bool {
    contains_seq(lowercase(v.filename@), lowercase(query)) || contains_seq(
        lowercase(v.name@),
        lowercase(query),
    )
}

/// The first visualizer at or after position `i` that answers `query`.
pub open spec fn find_visualizer_from(table: Seq<VisualizerDef>, query: Seq<char>, i: int) -> Option<int>
    decreases table.len() - i,
{
    if i < 0 || i >= table.len() {
        None
    } else if visualizer_matches(table[i], query) {
        Some(i)
    } else {
        find_visualizer_from(table, query, i + 1)
    }
}

/// The position of the first visualizer that answers `query` (see
/// `visualizer_matches`), if any.
pub fn find_visualizer(query: &str) -> (r: Option<usize>)
    ensures
        match r {
            Some(i) => find_visualizer_from(visualizer_table(), query@, 0) == Some(i as int),
            None => find_visualizer_from(visualizer_table(), query@, 0) is None,
        },
{
    let table = visualizers();
    let q = lowercase_chars(&chars_of(query));
    let mut i: usize = 0;
    while i < table.len()
        invariant
            table@ == visualizer_table(),
            q@ == lowercase(query@),
            i <= table.len(),
            find_visualizer_from(visualizer_table(), query@, 0) == find_visualizer_from(
                visualizer_table(),
                query@,
                i as int,
            ),
        decreases table.len() - i,
    {
        let file = lowercase_chars(&chars_of(table[i].filename));
        let name = lowercase_chars(&chars_of(table[i].name));
        if contains_chars(&file, &q) || contains_chars(&name, &q) {
            return Some(i);
        }
        i = i + 1;
    }
    None
}

/// The kind of a gamepad from its name and USB vendor id: a PlayStation pad
/// when its name, in lower case, names Sony's pads or the vendor is Sony's
/// (0x054C); a Nintendo pad when it names Nintendo's or the vendor is
/// Nintendo's (0x057E); `None` for any other pad.
pub open spec fn pad_kind_spec(name: Seq<char>, vendor: u16) -> Option<GamepadType> {
    pad_kind_lowered_spec(lowercase(name), vendor)
}

/// The kind of a gamepad from its name already in lower case and its vendor
/// id (see `pad_kind_spec`).
pub open spec fn pad_kind_lowered_spec(n: Seq<char>, vendor: u16) -> Option<GamepadType> {
    if contains_seq(n, "sony"@) || contains_seq(n, "dualshock"@) || contains_seq(n, "dualsense"@)
        || contains_seq(n, "ps4"@) || contains_seq(n, "ps5"@) || contains_seq(
        n,
        "wireless controller"@,
    ) || vendor == 0x054C {
        Some(GamepadType::PlayStation)
    } else if contains_seq(n, "nintendo"@) || contains_seq(n, "pro controller"@) || contains_seq(
        n,
        "joy-con"@,
    ) || vendor == 0x057E {
        Some(GamepadType::Nintendo)
    } else {
        None
    }
}

/// The button glyphs for the attached gamepads (each a name and a vendor id,
/// 0 when unknown, in the order they are listed): those of the first
/// PlayStation or Nintendo pad, else Xbox's.
pub open spec fn gamepad_type_of(pads: Seq<(Seq<char>, u16)>) -> GamepadType
    decreases pads.len(),
{
    if pads.len() == 0 {
        GamepadType::Xbox
    } else {
        match pad_kind_spec(pads[0].0, pads[0].1) {
            Some(t) => t,
            None => gamepad_type_of(pads.drop_first()),
        }
    }
}

/// The attached gamepads, mathematically.
pub open spec fn pad_views(pads: Seq<(String, u16)>) -> Seq<(Seq<char>, u16)> {
    pads.map_values(|p: (String, u16)| (p.0@, p.1))
}

fn pad_kind(name: &String, vendor: u16) -> (r: Option<GamepadType>)
    ensures
        r == pad_kind_spec(name@, vendor),
{
    let n = string_of(&lowercase_chars(&chars_of(name.as_str())));
    pad_kind_lowered(n.as_str(), vendor)
}

/// The kind of a gamepad from its name already in lower case and its vendor
/// id (see `pad_kind_lowered_spec`).
pub fn pad_kind_lowered(name: &str, vendor: u16) -> (r: Option<GamepadType>)
    ensures
        r == pad_kind_lowered_spec(name@, vendor),
{
    let n = chars_of(name);
    if contains_chars(&n, &chars_of("sony")) || contains_chars(&n, &chars_of("dualshock"))
        || contains_chars(&n, &chars_of("dualsense")) || contains_chars(&n, &chars_of("ps4"))
        || contains_chars(&n, &chars_of("ps5")) || contains_chars(
        &n,
        &chars_of("wireless controller"),
    ) || vendor == 0x054C {
        Some(GamepadType::PlayStation)
    } else if contains_chars(&n, &chars_of("nintendo")) || contains_chars(
        &n,
        &chars_of("pro controller"),
    ) || contains_chars(&n, &chars_of("joy-con")) || vendor == 0x057E {
        Some(GamepadType::Nintendo)
    } else {
        None
    }
}

/// The button glyphs for the attached gamepads (see `gamepad_type_of`).
pub fn detect_gamepad_type(pads: &Vec<(String, u16)>) -> (r: GamepadType)
    ensures
        r == gamepad_type_of(pad_views(pads@)),
{
    let ghost all = pad_views(pads@);
    let mut i: usize = 0;
    assert(all.skip(0) == all);
    while i < pads.len()
        invariant
            all == pad_views(pads@),
            i <= pads.len(),
            gamepad_type_of(all) == gamepad_type_of(all.skip(i as int)),
        decreases pads.len() - i,
    {
        let ghost rest = all.skip(i as int);
        assert(rest[0] == (pads@[i as int].0@, pads@[i as int].1));
        assert(rest.drop_first() == all.skip(i + 1));
        match pad_kind(&pads[i].0, pads[i].1) {
            Some(t) => {
                return t;
            },
            None => {},
        }
        i = i + 1;
    }
    GamepadType::Xbox
}

/// Whether the machine's DMI vendor text names Valve (a Steam Deck): trimmed
/// and in lower case, it contains `valve`. No vendor text means no.
pub open spec fn is_steam_deck_spec(vendor: Option<Seq<char>>) -> bool {
    match vendor {
        Some(v) => contains_seq(lowercase(trim(v)), "valve"@),
        None => false,
    }
}

/// Tests whether the DMI vendor text (`None` when it could not be read) is a
/// Steam Deck's.
pub fn is_steam_deck_vendor(vendor: Option<&str>) -> (r: bool)
    ensures
        r == is_steam_deck_spec(
            match vendor {
                Some(v) => Some(v@),
                None => None,
            },
        ),
{
    match vendor {
        Some(v) => {
            let low = string_of(&lowercase_chars(&trim_chars(&chars_of(v))));
            names_valve(low.as_str())
        },
        None => false,
    }
}

/// Tests whether vendor text already trimmed and in lower case names Valve.
pub fn names_valve(lowered: &str) -> (r: bool)
    ensures
        r == contains_seq(lowered@, "valve"@),
{
    contains_chars(&chars_of(lowered), &chars_of("valve"))
}

/// Whether the player runs in the Steam Deck's game mode: either desktop
/// variable is `gamescope` in any letter case, or `STEAM_DECK` is set.
pub open spec fn is_game_mode_spec(current_desktop: Seq<char>, session_desktop: Seq<char>, steam_deck_set: bool) -> bool {
    lowercase(current_desktop) == "gamescope"@ || lowercase(session_desktop) == "gamescope"@
        || steam_deck_set
}

/// Tests for the Steam Deck's game mode, from the values of
/// `XDG_CURRENT_DESKTOP` and `XDG_SESSION_DESKTOP` (empty when unset) and
/// whether `STEAM_DECK` is set.
pub fn is_game_mode(current_desktop: &str, session_desktop: &str, steam_deck_set: bool) -> (r: bool)
    ensures
        r == is_game_mode_spec(current_desktop@, session_desktop@, steam_deck_set),
{
    let cur = string_of(&lowercase_chars(&chars_of(current_desktop)));
    let ses = string_of(&lowercase_chars(&chars_of(session_desktop)));
    is_gamescope(cur.as_str()) || is_gamescope(ses.as_str()) || steam_deck_set
}

/// Tests whether a desktop name already in lower case is `gamescope`.
pub fn is_gamescope(lowered: &str) -> (r: bool)
    ensures
        r == (lowered@ == "gamescope"@),
{
    chars_eq(&chars_of(lowered), &chars_of("gamescope"))
}

} // verus!
