//! The prompt plan — the ordered list of controls the engine walks, one prompt each. A plan is
//! pure intent: each entry carries the control's positional id, its kind, and human prompt text,
//! never an evdev code (those are what the engine discovers by observation).
use vstd::prelude::*;

verus! {

/// The kind of a control — the schema's `input.kind` values, plus the prompt-only `HatDir`.
#[derive(Clone, Copy, Debug, PartialEq, Eq, Structural)]
pub enum Kind {
    Button,
    Hat,
    Stick,
    StickClick,
    Trigger,
    /// One D-PAD direction captured as its own atomic step; the four direction captures merge
    /// into the single `hat` row at emit.
    HatDir,
}

/// The schema spelling of a kind (`HatDir` reports `hat`).
pub open spec fn kind_str(k: Kind) -> &'static str {
    match k {
        Kind::Button => "button",
        Kind::Hat => "hat",
        Kind::Stick => "stick",
        Kind::StickClick => "stick-click",
        Kind::Trigger => "trigger",
        Kind::HatDir => "hat",
    }
}

/// How many distinct axis codes a kind records.
pub open spec fn kind_axes(k: Kind) -> usize {
    match k {
        Kind::Button | Kind::StickClick | Kind::Trigger | Kind::HatDir => 1,
        Kind::Hat | Kind::Stick => 2,
    }
}

impl Kind {
    /// The schema spelling (`input.kind`).
    pub fn as_str(self) -> (s: &'static str)
        ensures
            s == kind_str(self),
    {
        match self {
            Kind::Button => "button",
            Kind::Hat => "hat",
            Kind::Stick => "stick",
            Kind::StickClick => "stick-click",
            Kind::Trigger => "trigger",
            Kind::HatDir => "hat",
        }
    }

    /// How many distinct axis codes this kind expects to record.
    pub fn expected_axes(self) -> (n: usize)
        ensures
            n == kind_axes(self),
    {
        match self {
            Kind::Button | Kind::StickClick | Kind::Trigger | Kind::HatDir => 1,
            Kind::Hat | Kind::Stick => 2,
        }
    }
}

/// One prompt in the plan.
#[derive(Clone, Debug)]
pub struct ControlSpec {
    /// Positional id (e.g. `south`, `dpad`, `lstick`, `ltrig`).
    pub id: String,
    pub kind: Kind,
    /// Human prompt text.
    pub prompt: String,
    /// A control that never fires is skipped (row omitted) rather than an error.
    pub optional: bool,
    /// The evdev node this control lives on, by name; `None` = the primary node.
    pub source: Option<String>,
}

/// The plain content of a prompt: id, kind, prompt text, optional flag, and source node.
pub type ControlView = (Seq<char>, Kind, Seq<char>, bool, Option<Seq<char>>);

impl ControlSpec {
    pub open spec fn view(&self) -> ControlView {
        (
            self.id@,
            self.kind,
            self.prompt@,
            self.optional,
            match self.source {
                Some(s) => Some(s@),
                None => None,
            },
        )
    }

    pub fn new(id: &str, kind: Kind, prompt: &str, optional: bool) -> (c: ControlSpec)
        ensures
            c.view() == (id@, kind, prompt@, optional, None::<Seq<char>>),
    {
        ControlSpec {
            id: String::from_str(id),
            kind,
            prompt: String::from_str(prompt),
            optional,
            source: None,
        }
    }

    /// Builder: pin this control to a non-primary evdev node.
    pub fn on_source(self, node: &str) -> (c: ControlSpec)
        ensures
            c.view() == (self.id@, self.kind, self.prompt@, self.optional, Some(node@)),
    {
        ControlSpec {
            id: self.id,
            kind: self.kind,
            prompt: self.prompt,
            optional: self.optional,
            source: Some(String::from_str(node)),
        }
    }
}

/// The default generic-gamepad plan, as content.
pub open spec fn default_plan_spec() -> Seq<ControlView> {
    seq![
        ("south"@, Kind::Button, "Press the BOTTOM face button (south)"@, false, None::<Seq<char>>),
        ("east"@, Kind::Button, "Press the RIGHT face button (east)"@, false, None::<Seq<char>>),
        ("west"@, Kind::Button, "Press the LEFT face button (west)"@, false, None::<Seq<char>>),
        ("north"@, Kind::Button, "Press the TOP face button (north)"@, false, None::<Seq<char>>),
        ("select"@, Kind::Button, "Press SELECT"@, false, None::<Seq<char>>),
        ("start"@, Kind::Button, "Press START"@, false, None::<Seq<char>>),
        ("guide"@, Kind::Button, "Press GUIDE / MENU (skip if none)"@, true, None::<Seq<char>>),
        ("l1"@, Kind::Button, "Press the LEFT shoulder (L1)"@, false, None::<Seq<char>>),
        ("r1"@, Kind::Button, "Press the RIGHT shoulder (R1)"@, false, None::<Seq<char>>),
        ("dpad"@, Kind::Hat, "Press each D-PAD direction: UP, DOWN, LEFT, RIGHT"@, true, None::<Seq<char>>),
        ("lstick"@, Kind::Stick, "Sweep the LEFT STICK fully in a circle (all the way in every direction)"@, false, None::<Seq<char>>),
        ("rstick"@, Kind::Stick, "Sweep the RIGHT STICK fully in a circle (all the way in every direction)"@, false, None::<Seq<char>>),
        ("l3"@, Kind::StickClick, "Click the LEFT STICK (L3) (skip if none)"@, true, None::<Seq<char>>),
        ("r3"@, Kind::StickClick, "Click the RIGHT STICK (R3) (skip if none)"@, true, None::<Seq<char>>),
        ("ltrig"@, Kind::Trigger, "Squeeze the LEFT TRIGGER (L2) slowly from released to fully pressed"@, false, None::<Seq<char>>),
        ("rtrig"@, Kind::Trigger, "Squeeze the RIGHT TRIGGER (R2) slowly from released to fully pressed"@, false, None::<Seq<char>>),
    ]
}

/// The A133 gamepad-node plan, as content: the 17-prompt frozen baseline, every control
/// required and on the primary node.
pub open spec fn a133_plan_spec() -> Seq<ControlView> {
    seq![
        ("south"@, Kind::Button, "Press the BOTTOM face button"@, false, None::<Seq<char>>),
        ("east"@, Kind::Button, "Press the RIGHT face button"@, false, None::<Seq<char>>),
        ("west"@, Kind::Button, "Press the LEFT face button"@, false, None::<Seq<char>>),
        ("north"@, Kind::Button, "Press the TOP face button"@, false, None::<Seq<char>>),
        ("select"@, Kind::Button, "Press SELECT"@, false, None::<Seq<char>>),
        ("start"@, Kind::Button, "Press START"@, false, None::<Seq<char>>),
        ("guide"@, Kind::Button, "Press the MENU button"@, false, None::<Seq<char>>),
        ("l1"@, Kind::Button, "Press the LEFT shoulder (L1)"@, false, None::<Seq<char>>),
        ("r1"@, Kind::Button, "Press the RIGHT shoulder (R1)"@, false, None::<Seq<char>>),
        ("dpad_up"@, Kind::HatDir, "Press UP on the D-PAD"@, false, None::<Seq<char>>),
        ("dpad_down"@, Kind::HatDir, "Press DOWN on the D-PAD"@, false, None::<Seq<char>>),
        ("dpad_left"@, Kind::HatDir, "Press LEFT on the D-PAD"@, false, None::<Seq<char>>),
        ("dpad_right"@, Kind::HatDir, "Press RIGHT on the D-PAD"@, false, None::<Seq<char>>),
        ("lstick"@, Kind::Stick, "Roll the LEFT STICK once all the way around the circle (touch every edge)"@, false, None::<Seq<char>>),
        ("rstick"@, Kind::Stick, "Roll the RIGHT STICK once all the way around the circle (touch every edge)"@, false, None::<Seq<char>>),
        ("ltrig"@, Kind::Trigger, "Press the LEFT TRIGGER (L2) fully"@, false, None::<Seq<char>>),
        ("rtrig"@, Kind::Trigger, "Press the RIGHT TRIGGER (R2) fully"@, false, None::<Seq<char>>),
    ]
}

/// The default generic-gamepad plan: the base chassis shape plus the common optional extras.
pub fn default_gamepad_plan() -> (plan: Vec<ControlSpec>)
    ensures
        plan@.map_values(|c: ControlSpec| c.view()) == default_plan_spec(),
{
    let mut v: Vec<ControlSpec> = Vec::new();
    v.push(ControlSpec::new("south", Kind::Button, "Press the BOTTOM face button (south)", false));
    v.push(ControlSpec::new("east", Kind::Button, "Press the RIGHT face button (east)", false));
    v.push(ControlSpec::new("west", Kind::Button, "Press the LEFT face button (west)", false));
    v.push(ControlSpec::new("north", Kind::Button, "Press the TOP face button (north)", false));
    v.push(ControlSpec::new("select", Kind::Button, "Press SELECT", false));
    v.push(ControlSpec::new("start", Kind::Button, "Press START", false));
    v.push(ControlSpec::new("guide", Kind::Button, "Press GUIDE / MENU (skip if none)", true));
    v.push(ControlSpec::new("l1", Kind::Button, "Press the LEFT shoulder (L1)", false));
    v.push(ControlSpec::new("r1", Kind::Button, "Press the RIGHT shoulder (R1)", false));
    v.push(ControlSpec::new("dpad", Kind::Hat, "Press each D-PAD direction: UP, DOWN, LEFT, RIGHT", true));
    v.push(ControlSpec::new("lstick", Kind::Stick, "Sweep the LEFT STICK fully in a circle (all the way in every direction)", false));
    v.push(ControlSpec::new("rstick", Kind::Stick, "Sweep the RIGHT STICK fully in a circle (all the way in every direction)", false));
    v.push(ControlSpec::new("l3", Kind::StickClick, "Click the LEFT STICK (L3) (skip if none)", true));
    v.push(ControlSpec::new("r3", Kind::StickClick, "Click the RIGHT STICK (R3) (skip if none)", true));
    v.push(ControlSpec::new("ltrig", Kind::Trigger, "Squeeze the LEFT TRIGGER (L2) slowly from released to fully pressed", false));
    v.push(ControlSpec::new("rtrig", Kind::Trigger, "Squeeze the RIGHT TRIGGER (R2) slowly from released to fully pressed", false));
    assert(v@.map_values(|c: ControlSpec| c.view()) =~= default_plan_spec());
    v
}

/// The A133 gamepad-node plan: exactly the controls on the primary gamepad node.
pub fn a133_gamepad_plan() -> (plan: Vec<ControlSpec>)
    ensures
        plan@.map_values(|c: ControlSpec| c.view()) == a133_plan_spec(),
{
    let mut v: Vec<ControlSpec> = Vec::new();
    v.push(ControlSpec::new("south", Kind::Button, "Press the BOTTOM face button", false));
    v.push(ControlSpec::new("east", Kind::Button, "Press the RIGHT face button", false));
    v.push(ControlSpec::new("west", Kind::Button, "Press the LEFT face button", false));
    v.push(ControlSpec::new("north", Kind::Button, "Press the TOP face button", false));
    v.push(ControlSpec::new("select", Kind::Button, "Press SELECT", false));
    v.push(ControlSpec::new("start", Kind::Button, "Press START", false));
    v.push(ControlSpec::new("guide", Kind::Button, "Press the MENU button", false));
    v.push(ControlSpec::new("l1", Kind::Button, "Press the LEFT shoulder (L1)", false));
    v.push(ControlSpec::new("r1", Kind::Button, "Press the RIGHT shoulder (R1)", false));
    v.push(ControlSpec::new("dpad_up", Kind::HatDir, "Press UP on the D-PAD", false));
    v.push(ControlSpec::new("dpad_down", Kind::HatDir, "Press DOWN on the D-PAD", false));
    v.push(ControlSpec::new("dpad_left", Kind::HatDir, "Press LEFT on the D-PAD", false));
    v.push(ControlSpec::new("dpad_right", Kind::HatDir, "Press RIGHT on the D-PAD", false));
    v.push(ControlSpec::new("lstick", Kind::Stick, "Roll the LEFT STICK once all the way around the circle (touch every edge)", false));
    v.push(ControlSpec::new("rstick", Kind::Stick, "Roll the RIGHT STICK once all the way around the circle (touch every edge)", false));
    v.push(ControlSpec::new("ltrig", Kind::Trigger, "Press the LEFT TRIGGER (L2) fully", false));
    v.push(ControlSpec::new("rtrig", Kind::Trigger, "Press the RIGHT TRIGGER (R2) fully", false));
    assert(v@.map_values(|c: ControlSpec| c.view()) =~= a133_plan_spec());
    v
}

} // verus!
