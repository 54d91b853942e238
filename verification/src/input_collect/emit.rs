//! The emit model — an in-memory candidate `capabilities.toml` and its TOML serializer. A
//! candidate carries only what guided collection can observe: identity, a minimal primary
//! screen, and the input rows with their observed axis ranges and trigger semantics.
use vstd::prelude::*;
use crate::text::{dec_digits, hex2, int_text, push_hex2, push_i64, push_str, push_u64};

verus! {

/// A `struct input_absinfo`-shaped axis range, emitted for `range`/`x`/`y`.
#[derive(Clone, Copy, Debug, PartialEq, Eq, Structural)]
pub struct Axis {
    pub min: i32,
    pub max: i32,
    pub fuzz: i32,
    pub flat: i32,
    pub resolution: i32,
    /// Observed rest/centre position, when the axis was measured from a live sweep.
    pub value: Option<i32>,
}

/// One `[[inputs]]` row.
#[derive(Clone, Debug)]
pub struct Input {
    pub id: String,
    pub kind: String,
    pub ev_type: String,
    /// A single symbol (`BTN_A`, `ABS_Z`) or a comma pair for two-axis controls.
    pub code: String,
    pub semantics: Option<String>,
    pub range: Option<Axis>,
    pub x: Option<Axis>,
    pub y: Option<Axis>,
}

/// The `[identity]` block.
#[derive(Clone, Debug)]
pub struct Identity {
    pub id: String,
    pub manufacturer: String,
    pub model: String,
    pub sdl_guid: String,
    pub evdev_name: String,
    pub vid: Option<String>,
    pub pid: Option<String>,
}

/// One `[[screens]]` block (minimal render intent).
#[derive(Clone, Debug)]
pub struct Screen {
    pub role: String,
    pub present: String,
    pub rotation: String,
    pub canvas_w: u32,
    pub canvas_h: u32,
}

/// A complete candidate descriptor.
#[derive(Clone, Debug)]
pub struct Capabilities {
    pub accept_default: Option<String>,
    pub identity: Identity,
    pub screens: Vec<Screen>,
    pub inputs: Vec<Input>,
}

pub open spec fn opt_view(o: Option<String>) -> Option<Seq<char>> {
    match o {
        Some(s) => Some(s@),
        None => None,
    }
}

impl Screen {
    /// A minimal, always-valid primary screen: a landscape 1280x720 canvas.
    pub fn minimal_primary() -> (s: Screen)
        ensures
            s.role@ == "primary"@,
            s.present@ == "landscape"@,
            s.rotation@ == "none"@,
            s.canvas_w == 1280,
            s.canvas_h == 720,
    {
        Screen {
            role: String::from_str("primary"),
            present: String::from_str("landscape"),
            rotation: String::from_str("none"),
            canvas_w: 1280,
            canvas_h: 720,
        }
    }
}

/// A 16-bit word as SDL writes it in a GUID: low byte first, each as two hex digits.
pub open spec fn le16(x: u16) -> Seq<char> {
    hex2((x % 256) as u8) + hex2((x / 256) as u8)
}

/// The SDL2 joystick GUID for `(bus, vid, pid, version)`: each word little-endian, each followed
/// by `0000`.
pub open spec fn sdl_guid_spec(bus: u16, vid: u16, pid: u16, version: u16) -> Seq<char> {
    le16(bus) + "0000"@ + le16(vid) + "0000"@ + le16(pid) + "0000"@ + le16(version) + "0000"@
}

fn push_le16(s: &mut String, x: u16)
    ensures
        final(s)@ == old(s)@ + le16(x),
{
    push_hex2(s, (x % 256) as u8);
    push_hex2(s, (x / 256) as u8);
    assert(old(s)@ + le16(x) =~= old(s)@ + hex2((x % 256) as u8) + hex2((x / 256) as u8));
}

/// Build the SDL2 joystick GUID from `(bus, vid, pid, version)` using the standard USB layout.
pub fn sdl_guid(bus: u16, vid: u16, pid: u16, version: u16) -> (g: String)
    ensures
        g@ == sdl_guid_spec(bus, vid, pid, version),
{
    let mut s = String::new();
    push_le16(&mut s, bus);
    push_str(&mut s, "0000");
    push_le16(&mut s, vid);
    push_str(&mut s, "0000");
    push_le16(&mut s, pid);
    push_str(&mut s, "0000");
    push_le16(&mut s, version);
    push_str(&mut s, "0000");
    assert(s@ =~= sdl_guid_spec(bus, vid, pid, version));
    s
}

/// The inline-table rendering of an axis: resolution only when non-zero, value only when
/// measured.
/// The always-present part of an axis inline table.
pub open spec fn axis_core(a: Axis) -> Seq<char> {
    "{ min = "@ + int_text(a.min as int) + ", max = "@ + int_text(a.max as int) + ", fuzz = "@
        + int_text(a.fuzz as int) + ", flat = "@ + int_text(a.flat as int)
}

/// The optional `resolution`/`value` part of an axis inline table.
pub open spec fn axis_extra(a: Axis) -> Seq<char> {
    (if a.resolution != 0 {
        ", resolution = "@ + int_text(a.resolution as int)
    } else {
        Seq::empty()
    }) + (match a.value {
        Some(v) => ", value = "@ + int_text(v as int),
        None => Seq::empty(),
    })
}

#[verifier::opaque]
pub open spec fn axis_text(a: Axis) -> Seq<char> {
    axis_core(a) + axis_extra(a) + " }"@
}

fn push_axis_core(s: &mut String, a: &Axis)
    ensures
        final(s)@ == old(s)@ + axis_core(*a),
{
    push_str(s, "{ min = ");
    push_i64(s, a.min as i64);
    push_str(s, ", max = ");
    push_i64(s, a.max as i64);
    push_str(s, ", fuzz = ");
    push_i64(s, a.fuzz as i64);
    push_str(s, ", flat = ");
    push_i64(s, a.flat as i64);
    assert(s@ =~= old(s)@ + axis_core(*a));
}

fn push_axis_extra(s: &mut String, a: &Axis)
    ensures
        final(s)@ == old(s)@ + axis_extra(*a),
{
    let ghost s0 = s@;
    if a.resolution != 0 {
        push_str(s, ", resolution = ");
        push_i64(s, a.resolution as i64);
    }
    let ghost s1 = s@;
    assert(s1 =~= s0 + (if a.resolution != 0 {
        ", resolution = "@ + int_text(a.resolution as int)
    } else {
        Seq::<char>::empty()
    }));
    match a.value {
        Some(v) => {
            push_str(s, ", value = ");
            push_i64(s, v as i64);
            assert(s@ =~= s1 + (", value = "@ + int_text(v as int)));
        },
        None => {
            assert(s@ =~= s1 + Seq::<char>::empty());
        },
    }
    assert(s@ =~= old(s)@ + axis_extra(*a));
}

fn push_axis(s: &mut String, a: &Axis)
    ensures
        final(s)@ == old(s)@ + axis_text(*a),
{
    push_axis_core(s, a);
    push_axis_extra(s, a);
    push_str(s, " }");
    reveal(axis_text);
    assert(s@ =~= old(s)@ + axis_text(*a));
}

/// The inline-table rendering of an axis.
pub fn axis_inline(a: &Axis) -> (t: String)
    ensures
        t@ == axis_text(*a),
{
    let mut s = String::new();
    push_axis(&mut s, a);
    assert(s@ =~= axis_text(*a));
    s
}

/// A quoted TOML string value (written verbatim between double quotes).
pub open spec fn quoted(s: Seq<char>) -> Seq<char> {
    "\""@ + s + "\""@
}

/// The leading comment block of every candidate.
pub open spec fn header_text() -> Seq<char> {
    HEADER@
}

pub const HEADER: &'static str = "# CANDIDATE capabilities.toml — emitted by guided ground-truth collection.\n# Contains only what was OBSERVED from prompted presses:\n# identity + a minimal primary screen + the input rows (codes, axis ranges, and\n# binary/analog trigger semantics). skin_part / skin / sensors / actuators are\n# left for later authoring passes — a candidate emits only what it can observe.\n\n";

/// A `label = "value"` line.
pub open spec fn field_line(label: Seq<char>, v: Seq<char>) -> Seq<char> {
    label + quoted(v) + "\n"@
}

/// An optional `, key = "value"` fragment.
pub open spec fn opt_pair(key: Seq<char>, v: Option<String>) -> Seq<char> {
    match v {
        Some(v) => key + quoted(v@),
        None => Seq::empty(),
    }
}

/// An optional `key = <axis>` line.
pub open spec fn opt_axis_line(key: Seq<char>, a: Option<Axis>) -> Seq<char> {
    match a {
        Some(a) => key + axis_text(a) + "\n"@,
        None => Seq::empty(),
    }
}

/// The `[identity]` block.
#[verifier::opaque]
pub open spec fn identity_text(i: Identity) -> Seq<char> {
    "[identity]\n"@ + field_line("id           = "@, i.id@) + field_line(
        "manufacturer = "@,
        i.manufacturer@,
    ) + field_line("model        = "@, i.model@) + field_line("sdl_guid     = "@, i.sdl_guid@)
        + "match        = { "@ + "evdev_name = "@ + quoted(i.evdev_name@) + opt_pair(
        ", vid = "@,
        i.vid,
    ) + opt_pair(", pid = "@, i.pid) + " }\n\n"@
}

/// One `[[screens]]` block.
#[verifier::opaque]
pub open spec fn screen_text(s: Screen) -> Seq<char> {
    "[[screens]]\n"@ + field_line("role          = "@, s.role@) + field_line(
        "present       = "@,
        s.present@,
    ) + field_line("rotation      = "@, s.rotation@) + "render_canvas = { w = "@ + dec_digits(
        s.canvas_w as nat,
    ) + ", h = "@ + dec_digits(s.canvas_h as nat) + " }\n\n"@
}

/// An optional `label = "value"` line.
pub open spec fn opt_field_line(label: Seq<char>, v: Option<String>) -> Seq<char> {
    match v {
        Some(v) => field_line(label, v@),
        None => Seq::empty(),
    }
}

/// The fixed leading lines of an `[[inputs]]` block.
pub open spec fn input_head(i: Input) -> Seq<char> {
    "[[inputs]]\n"@ + field_line("id = "@, i.id@) + field_line("kind = "@, i.kind@) + field_line(
        "ev_type = "@,
        i.ev_type@,
    ) + field_line("code = "@, i.code@)
}

/// The optional trailing lines of an `[[inputs]]` block.
pub open spec fn input_tail(i: Input) -> Seq<char> {
    opt_field_line("semantics = "@, i.semantics) + opt_axis_line("range = "@, i.range)
        + opt_axis_line("x = "@, i.x) + opt_axis_line("y = "@, i.y)
}

/// One `[[inputs]]` block.
#[verifier::opaque]
pub open spec fn input_text(i: Input) -> Seq<char> {
    input_head(i) + input_tail(i) + "\n"@
}

pub open spec fn screens_text(ss: Seq<Screen>) -> Seq<char>
    decreases ss.len(),
{
    if ss.len() == 0 {
        Seq::empty()
    } else {
        screens_text(ss.drop_last()) + screen_text(ss.last())
    }
}

pub open spec fn inputs_text(is: Seq<Input>) -> Seq<char>
    decreases is.len(),
{
    if is.len() == 0 {
        Seq::empty()
    } else {
        inputs_text(is.drop_last()) + input_text(is.last())
    }
}

/// The whole candidate document.
pub open spec fn toml_text(c: Capabilities) -> Seq<char> {
    header_text() + accept_text(c.accept_default) + identity_text(c.identity) + screens_text(c.screens@) + inputs_text(c.inputs@)
}

fn push_quoted(s: &mut String, t: &str)
    ensures
        final(s)@ == old(s)@ + quoted(t@),
{
    push_str(s, "\"");
    push_str(s, t);
    push_str(s, "\"");
    assert(s@ =~= old(s)@ + quoted(t@));
}

fn push_field(s: &mut String, label: &str, v: &str)
    ensures
        final(s)@ == old(s)@ + field_line(label@, v@),
{
    push_str(s, label);
    push_quoted(s, v);
    push_str(s, "\n");
    assert(s@ =~= old(s)@ + field_line(label@, v@));
}

fn push_opt_pair(s: &mut String, key: &str, v: &Option<String>)
    ensures
        final(s)@ == old(s)@ + opt_pair(key@, *v),
{
    match v {
        Some(v) => {
            push_str(s, key);
            push_quoted(s, v.as_str());
            assert(s@ =~= old(s)@ + (key@ + quoted(v@)));
        },
        None => {
            assert(s@ =~= old(s)@ + Seq::<char>::empty());
        },
    }
}

fn push_opt_axis(s: &mut String, key: &str, a: &Option<Axis>)
    ensures
        final(s)@ == old(s)@ + opt_axis_line(key@, *a),
{
    match a {
        Some(a) => {
            push_str(s, key);
            push_axis(s, a);
            push_str(s, "\n");
            assert(s@ =~= old(s)@ + (key@ + axis_text(*a) + "\n"@));
        },
        None => {
            assert(s@ =~= old(s)@ + Seq::<char>::empty());
        },
    }
}

fn push_identity(s: &mut String, i: &Identity)
    ensures
        final(s)@ == old(s)@ + identity_text(*i),
{
    let ghost s0 = s@;
    push_str(s, "[identity]\n");
    push_field(s, "id           = ", i.id.as_str());
    push_field(s, "manufacturer = ", i.manufacturer.as_str());
    push_field(s, "model        = ", i.model.as_str());
    push_field(s, "sdl_guid     = ", i.sdl_guid.as_str());
    let ghost s1 = s@;
    push_str(s, "match        = { ");
    push_str(s, "evdev_name = ");
    push_quoted(s, i.evdev_name.as_str());
    push_opt_pair(s, ", vid = ", &i.vid);
    push_opt_pair(s, ", pid = ", &i.pid);
    push_str(s, " }\n\n");
    reveal(identity_text);
    assert(s@ =~= old(s)@ + identity_text(*i));
}

fn push_screen(s: &mut String, sc: &Screen)
    ensures
        final(s)@ == old(s)@ + screen_text(*sc),
{
    push_str(s, "[[screens]]\n");
    push_field(s, "role          = ", sc.role.as_str());
    push_field(s, "present       = ", sc.present.as_str());
    push_field(s, "rotation      = ", sc.rotation.as_str());
    push_str(s, "render_canvas = { w = ");
    push_u64(s, sc.canvas_w as u64);
    push_str(s, ", h = ");
    push_u64(s, sc.canvas_h as u64);
    push_str(s, " }\n\n");
    reveal(screen_text);
    assert(s@ =~= old(s)@ + screen_text(*sc));
}

fn push_opt_field(s: &mut String, label: &str, v: &Option<String>)
    ensures
        final(s)@ == old(s)@ + opt_field_line(label@, *v),
{
    match v {
        Some(v) => {
            push_field(s, label, v.as_str());
        },
        None => {
            assert(s@ =~= old(s)@ + Seq::<char>::empty());
        },
    }
}

fn push_input_head(s: &mut String, i: &Input)
    ensures
        final(s)@ == old(s)@ + input_head(*i),
{
    push_str(s, "[[inputs]]\n");
    push_field(s, "id = ", i.id.as_str());
    push_field(s, "kind = ", i.kind.as_str());
    push_field(s, "ev_type = ", i.ev_type.as_str());
    push_field(s, "code = ", i.code.as_str());
    assert(s@ =~= old(s)@ + input_head(*i));
}

fn push_input_tail(s: &mut String, i: &Input)
    ensures
        final(s)@ == old(s)@ + input_tail(*i),
{
    push_opt_field(s, "semantics = ", &i.semantics);
    push_opt_axis(s, "range = ", &i.range);
    push_opt_axis(s, "x = ", &i.x);
    push_opt_axis(s, "y = ", &i.y);
    assert(s@ =~= old(s)@ + input_tail(*i));
}

fn push_input(s: &mut String, i: &Input)
    ensures
        final(s)@ == old(s)@ + input_text(*i),
{
    push_input_head(s, i);
    push_input_tail(s, i);
    push_str(s, "\n");
    reveal(input_text);
    assert(s@ =~= old(s)@ + input_text(*i));
}

fn push_screens(out: &mut String, screens: &Vec<Screen>)
    ensures
        final(out)@ == old(out)@ + screens_text(screens@),
{
    let ghost before = out@;
    let mut i: usize = 0;
    while i < screens.len()
        invariant
            i <= screens@.len(),
            out@ == before + screens_text(screens@.subrange(0, i as int)),
        decreases screens@.len() - i,
    {
        push_screen(out, &screens[i]);
        i += 1;
        proof {
            let t = screens@.subrange(0, i as int);
            assert(t.drop_last() =~= screens@.subrange(0, i - 1));
            assert(out@ =~= before + screens_text(t));
        }
    }
    assert(screens@.subrange(0, screens@.len() as int) =~= screens@);
}

fn push_inputs(out: &mut String, inputs: &Vec<Input>)
    ensures
        final(out)@ == old(out)@ + inputs_text(inputs@),
{
    let ghost before = out@;
    let mut j: usize = 0;
    while j < inputs.len()
        invariant
            j <= inputs@.len(),
            out@ == before + inputs_text(inputs@.subrange(0, j as int)),
        decreases inputs@.len() - j,
    {
        push_input(out, &inputs[j]);
        j += 1;
        proof {
            let t = inputs@.subrange(0, j as int);
            assert(t.drop_last() =~= inputs@.subrange(0, j - 1));
            assert(out@ =~= before + inputs_text(t));
        }
    }
    assert(inputs@.subrange(0, inputs@.len() as int) =~= inputs@);
}

/// The optional `accept_default` line.
pub open spec fn accept_text(a: Option<String>) -> Seq<char> {
    match a {
        Some(ad) => "accept_default = "@ + quoted(ad@) + "\n\n"@,
        None => Seq::empty(),
    }
}

fn push_accept(out: &mut String, a: &Option<String>)
    ensures
        final(out)@ == old(out)@ + accept_text(*a),
{
    match a {
        Some(ad) => {
            push_str(out, "accept_default = ");
            push_quoted(out, ad.as_str());
            push_str(out, "\n\n");
            assert(out@ =~= old(out)@ + accept_text(*a));
        },
        None => {
            assert(out@ =~= old(out)@ + accept_text(*a));
        },
    }
}

impl Capabilities {
    /// Serialize to a `capabilities.toml` string.
    pub fn to_toml(&self) -> (t: String)
        ensures
            t@ == toml_text(*self),
    {
        let mut out = String::new();
        push_str(&mut out, HEADER);
        push_accept(&mut out, &self.accept_default);
        push_identity(&mut out, &self.identity);
        push_screens(&mut out, &self.screens);
        push_inputs(&mut out, &self.inputs);
        assert(out@ =~= toml_text(*self));
        out
    }
}


/// The listing of `is` begins with the listing of its first `j` rows, then row `j`'s block.
proof fn lemma_inputs_split(is: Seq<Input>, j: int)
    requires
        0 <= j < is.len(),
    ensures
        exists|z: Seq<char>| inputs_text(is) == inputs_text(is.take(j)) + input_text(is[j]) + z,
    decreases is.len(),
{
    if is.len() == j + 1 {
        assert(is.drop_last() =~= is.take(j));
        assert(inputs_text(is) == inputs_text(is.take(j)) + input_text(is[j]) + Seq::<char>::empty());
    } else {
        let p = is.drop_last();
        lemma_inputs_split(p, j);
        let z = choose|z: Seq<char>| inputs_text(p) == inputs_text(p.take(j)) + input_text(p[j]) + z;
        assert(p.take(j) =~= is.take(j));
        assert(p[j] == is[j]);
        assert(inputs_text(is) =~= inputs_text(is.take(j)) + input_text(is[j]) + (z + input_text(is.last())));
    }
}

/// An input block is its head, semantics and range lines, then its `x` and `y` lines and a
/// blank line.
proof fn lemma_block_parts(i: Input)
    ensures
        input_text(i) == input_head(i) + opt_field_line("semantics = "@, i.semantics) + opt_axis_line("range = "@, i.range)
            + opt_axis_line("x = "@, i.x) + opt_axis_line("y = "@, i.y) + "\n"@,
{
    reveal(input_text);
    assert(input_text(i) =~= input_head(i) + opt_field_line("semantics = "@, i.semantics) + opt_axis_line(
        "range = "@,
        i.range,
    ) + opt_axis_line("x = "@, i.x) + opt_axis_line("y = "@, i.y) + "\n"@);
}

proof fn lemma_regroup(p: Seq<char>, h: Seq<char>, rl: Seq<char>, xl: Seq<char>, yl: Seq<char>, z: Seq<char>)
    ensures
        p + (h + rl + xl + yl + "\n"@) + z == (p + h) + rl + xl + yl + "\n"@ + z,
{
    assert(p + (h + rl + xl + yl + "\n"@) + z =~= (p + h) + rl + xl + yl + "\n"@ + z);
}

/// The line `key` renders for an optional axis: `key`, the axis, a newline; nothing without one.
pub open spec fn axis_line_of(key: Seq<char>, a: Option<Axis>) -> Seq<char> {
    if a is Some {
        key + axis_text(a->0) + "\n"@
    } else {
        Seq::empty()
    }
}

/// Every input row's axes are rendered from that row's own fields: its block ends with its
/// `range` line, then its `x` line, then its `y` line (each present exactly when the row has
/// that axis, rendering that very axis), then a blank line.
pub proof fn law_rows_render_their_own_axes(c: Capabilities, j: int)
    requires
        0 <= j < c.inputs@.len(),
    ensures
        ({
            let i = c.inputs@[j];
            exists|a: Seq<char>, b: Seq<char>|
                toml_text(c) == a + axis_line_of("range = "@, i.range) + axis_line_of("x = "@, i.x) + axis_line_of(
                    "y = "@,
                    i.y,
                ) + "\n"@ + b
        }),
{
    let i = c.inputs@[j];
    lemma_inputs_split(c.inputs@, j);
    let z = choose|z: Seq<char>| inputs_text(c.inputs@) == inputs_text(c.inputs@.take(j)) + input_text(c.inputs@[j]) + z;
    lemma_block_parts(i);
    let p = header_text() + accept_text(c.accept_default) + identity_text(c.identity) + screens_text(c.screens@)
        + inputs_text(c.inputs@.take(j));
    let h = input_head(i) + opt_field_line("semantics = "@, i.semantics);
    let rl = opt_axis_line("range = "@, i.range);
    let xl = opt_axis_line("x = "@, i.x);
    let yl = opt_axis_line("y = "@, i.y);
    assert(rl == axis_line_of("range = "@, i.range));
    assert(xl == axis_line_of("x = "@, i.x));
    assert(yl == axis_line_of("y = "@, i.y));
    assert(toml_text(c) == p + (h + rl + xl + yl + "\n"@) + z) by {
        let q = header_text() + accept_text(c.accept_default) + identity_text(c.identity) + screens_text(c.screens@);
        assert(q + (inputs_text(c.inputs@.take(j)) + (h + rl + xl + yl + "\n"@) + z) =~= q + inputs_text(c.inputs@.take(j))
            + (h + rl + xl + yl + "\n"@) + z);
    }
    lemma_regroup(p, h, rl, xl, yl, z);
}

} // verus!
