//! Game phases, the tools each phase offers, players and move types.
use vstd::prelude::*;

verus! {

/// Player side.
#[derive(Debug, Clone, Copy, PartialEq, Eq, Hash, Structural)]
pub enum Player {
    Attacker,
    Defender,
}

/// The opposing side.
pub open spec fn opponent(p: Player) -> Player {
    match p {
        Player::Attacker => Player::Defender,
        Player::Defender => Player::Attacker,
    }
}

impl Player {
    pub fn label(&self) -> (r: &'static str)
        ensures
            r@ == match *self {
                Player::Attacker => "Attacker"@,
                Player::Defender => "Defender"@,
            },
    {
        match self {
            Player::Attacker => "Attacker",
            Player::Defender => "Defender",
        }
    }

    pub fn other(&self) -> (r: Player)
        ensures
            r == opponent(*self),
    {
        match self {
            Player::Attacker => Player::Defender,
            Player::Defender => Player::Attacker,
        }
    }
}

/// The phases of a player's turn.
#[derive(Debug, Clone, Copy, PartialEq, Eq, Structural)]
pub enum GamePhase {
    Command,
    Movement,
    Shooting,
    Charge,
    Fight,
}

impl Default for GamePhase {
    fn default() -> (r: Self)
        ensures
            r == GamePhase::Command,
    {
        GamePhase::Command
    }
}

/// The annotation tools.
#[derive(Debug, Clone, Copy, PartialEq, Eq, Hash, Structural)]
pub enum ActiveTool {
    Select,
    // Movement tools
    Move,
    Advance,
    FallBack,
    Reactive,
    PileIn,
    Consolidate,
    Charge,
    // Annotation tools
    ShootAnnotate,
    Measure,
    RangeRing,
    // Action tools
    Kill,
    PerformAction,
    Battleshock,
    DeployReserves,
    EnterReserves,
}

impl Default for ActiveTool {
    fn default() -> (r: Self)
        ensures
            r == ActiveTool::Select,
    {
        ActiveTool::Select
    }
}

/// The phase after `p`; `None` when the turn ends (after Fight).
pub open spec fn phase_after(p: GamePhase) -> Option<GamePhase> {
    match p {
        GamePhase::Command => Some(GamePhase::Movement),
        GamePhase::Movement => Some(GamePhase::Shooting),
        GamePhase::Shooting => Some(GamePhase::Charge),
        GamePhase::Charge => Some(GamePhase::Fight),
        GamePhase::Fight => None,
    }
}

/// The tools offered in phase `p`, in palette order.
pub open spec fn tools_of(p: GamePhase) -> Seq<ActiveTool> {
    match p {
        GamePhase::Command => seq![ActiveTool::Select, ActiveTool::Battleshock],
        GamePhase::Movement => seq![
            ActiveTool::Select,
            ActiveTool::Move,
            ActiveTool::Advance,
            ActiveTool::FallBack,
            ActiveTool::Reactive,
            ActiveTool::DeployReserves,
            ActiveTool::Kill,
        ],
        GamePhase::Shooting => seq![
            ActiveTool::Select,
            ActiveTool::ShootAnnotate,
            ActiveTool::PerformAction,
            ActiveTool::Reactive,
            ActiveTool::Kill,
        ],
        GamePhase::Charge => seq![
            ActiveTool::Select,
            ActiveTool::Charge,
            ActiveTool::Reactive,
            ActiveTool::Kill,
        ],
        GamePhase::Fight => seq![
            ActiveTool::Select,
            ActiveTool::PileIn,
            ActiveTool::Kill,
            ActiveTool::Consolidate,
            ActiveTool::Reactive,
            ActiveTool::EnterReserves,
        ],
    }
}

/// The tool selected on entering phase `p`.
pub open spec fn default_tool_of(p: GamePhase) -> ActiveTool {
    match p {
        GamePhase::Command => ActiveTool::Select,
        GamePhase::Movement => ActiveTool::Move,
        GamePhase::Shooting => ActiveTool::ShootAnnotate,
        GamePhase::Charge => ActiveTool::Charge,
        GamePhase::Fight => ActiveTool::PileIn,
    }
}

impl GamePhase {
    pub fn label(self) -> (r: &'static str)
        ensures
            r@ == match self {
                GamePhase::Command => "Command"@,
                GamePhase::Movement => "Movement"@,
                GamePhase::Shooting => "Shooting"@,
                GamePhase::Charge => "Charge"@,
                GamePhase::Fight => "Fight"@,
            },
    {
        match self {
            Self::Command => "Command",
            Self::Movement => "Movement",
            Self::Shooting => "Shooting",
            Self::Charge => "Charge",
            Self::Fight => "Fight",
        }
    }

    /// Returns the next phase, or `None` when the turn ends (after Fight).
    pub fn next(self) -> (r: Option<Self>)
        ensures
            r == phase_after(self),
    {
        match self {
            Self::Command => Some(Self::Movement),
            Self::Movement => Some(Self::Shooting),
            Self::Shooting => Some(Self::Charge),
            Self::Charge => Some(Self::Fight),
            Self::Fight => None,
        }
    }

    /// Tools available in this phase.
    pub fn available_tools(self) -> (r: Vec<ActiveTool>)
        ensures
            r@ == tools_of(self),
    {
        let r = match self {
            Self::Command => vec![ActiveTool::Select, ActiveTool::Battleshock],
            Self::Movement => vec![
                ActiveTool::Select,
                ActiveTool::Move,
                ActiveTool::Advance,
                ActiveTool::FallBack,
                ActiveTool::Reactive,
                ActiveTool::DeployReserves,
                ActiveTool::Kill,
            ],
            Self::Shooting => vec![
                ActiveTool::Select,
                ActiveTool::ShootAnnotate,
                ActiveTool::PerformAction,
                ActiveTool::Reactive,
                ActiveTool::Kill,
            ],
            Self::Charge => vec![
                ActiveTool::Select,
                ActiveTool::Charge,
                ActiveTool::Reactive,
                ActiveTool::Kill,
            ],
            Self::Fight => vec![
                ActiveTool::Select,
                ActiveTool::PileIn,
                ActiveTool::Kill,
                ActiveTool::Consolidate,
                ActiveTool::Reactive,
                ActiveTool::EnterReserves,
            ],
        };
        proof {
            assert(r@ =~= tools_of(self));
        }
        r
    }

    /// The tool automatically selected when entering this phase.
    pub fn default_tool(self) -> (r: ActiveTool)
        ensures
            r == default_tool_of(self),
    {
        match self {
            Self::Command => ActiveTool::Select,
            Self::Movement => ActiveTool::Move,
            Self::Shooting => ActiveTool::ShootAnnotate,
            Self::Charge => ActiveTool::Charge,
            Self::Fight => ActiveTool::PileIn,
        }
    }
}

/// The tools that move units.
pub open spec fn moves_units(t: ActiveTool) -> bool {
    match t {
        ActiveTool::Move | ActiveTool::Advance | ActiveTool::FallBack | ActiveTool::Reactive
        | ActiveTool::PileIn | ActiveTool::Consolidate | ActiveTool::Charge => true,
        _ => false,
    }
}

/// The label of a tool.
pub open spec fn tool_label(t: ActiveTool) -> Seq<char> {
    match t {
        ActiveTool::Select => "Select"@,
        ActiveTool::Move => "Move"@,
        ActiveTool::Advance => "Advance"@,
        ActiveTool::FallBack => "Fall Back"@,
        ActiveTool::Reactive => "Reactive"@,
        ActiveTool::PileIn => "Pile In"@,
        ActiveTool::Consolidate => "Consolidate"@,
        ActiveTool::Charge => "Charge"@,
        ActiveTool::ShootAnnotate => "Shoot"@,
        ActiveTool::Measure => "Measure"@,
        ActiveTool::RangeRing => "Range Ring"@,
        ActiveTool::Kill => "Kill"@,
        ActiveTool::PerformAction => "Action"@,
        ActiveTool::Battleshock => "Battleshock"@,
        ActiveTool::DeployReserves => "Deploy Reserves"@,
        ActiveTool::EnterReserves => "Enter Reserves"@,
    }
}

impl ActiveTool {
    pub fn label(self) -> (r: &'static str)
        ensures
            r@ == tool_label(self),
    {
        match self {
            Self::Select => "Select",
            Self::Move => "Move",
            Self::Advance => "Advance",
            Self::FallBack => "Fall Back",
            Self::Reactive => "Reactive",
            Self::PileIn => "Pile In",
            Self::Consolidate => "Consolidate",
            Self::Charge => "Charge",
            Self::ShootAnnotate => "Shoot",
            Self::Measure => "Measure",
            Self::RangeRing => "Range Ring",
            Self::Kill => "Kill",
            Self::PerformAction => "Action",
            Self::Battleshock => "Battleshock",
            Self::DeployReserves => "Deploy Reserves",
            Self::EnterReserves => "Enter Reserves",
        }
    }

    pub fn is_movement_tool(self) -> (r: bool)
        ensures
            r == moves_units(self),
    {
        match self {
            Self::Move | Self::Advance | Self::FallBack | Self::Reactive | Self::PileIn
            | Self::Consolidate | Self::Charge => true,
            _ => false,
        }
    }
}

/// Type of movement: determines arrow color and behavior.
#[derive(Debug, Clone, Copy, PartialEq, Eq, Structural)]
pub enum MoveType {
    Normal,
    Advance,
    FallBack,
    Reactive,
    PileIn,
    Consolidate,
    Charge,
}

impl Default for MoveType {
    fn default() -> (r: Self)
        ensures
            r == MoveType::Normal,
    {
        MoveType::Normal
    }
}

/// The label of a move type.
pub open spec fn move_label(m: MoveType) -> Seq<char> {
    match m {
        MoveType::Normal => "Move"@,
        MoveType::Advance => "Advance"@,
        MoveType::FallBack => "Fall Back"@,
        MoveType::Reactive => "Reactive"@,
        MoveType::PileIn => "Pile In"@,
        MoveType::Consolidate => "Consolidate"@,
        MoveType::Charge => "Charge"@,
    }
}

impl MoveType {
    pub fn label(self) -> (r: &'static str)
        ensures
            r@ == move_label(self),
    {
        match self {
            Self::Normal => "Move",
            Self::Advance => "Advance",
            Self::FallBack => "Fall Back",
            Self::Reactive => "Reactive",
            Self::PileIn => "Pile In",
            Self::Consolidate => "Consolidate",
            Self::Charge => "Charge",
        }
    }

    /// Charge arrows are dashed.
    pub fn is_dashed(self) -> (r: bool)
        ensures
            r == (self == MoveType::Charge),
    {
        match self {
            Self::Charge => true,
            _ => false,
        }
    }
}

/// The move type a drag made with tool `t` records.
pub open spec fn move_type_of(t: ActiveTool) -> MoveType {
    match t {
        ActiveTool::Advance => MoveType::Advance,
        ActiveTool::FallBack => MoveType::FallBack,
        ActiveTool::Reactive => MoveType::Reactive,
        ActiveTool::PileIn => MoveType::PileIn,
        ActiveTool::Consolidate => MoveType::Consolidate,
        ActiveTool::Charge => MoveType::Charge,
        _ => MoveType::Normal,
    }
}


/// Every phase offers the Select tool and its own default tool, and a drag
/// with any tool of the palette records a move type.
pub proof fn lemma_palette(p: GamePhase)
    ensures
        tools_of(p).contains(ActiveTool::Select),
        tools_of(p).contains(default_tool_of(p)),
        moves_units(default_tool_of(p)) <==> p != GamePhase::Command && p != GamePhase::Shooting,
{
    assert(tools_of(p)[0] == ActiveTool::Select);
    match p {
        GamePhase::Command => assert(tools_of(p)[0] == default_tool_of(p)),
        GamePhase::Movement => assert(tools_of(p)[1] == default_tool_of(p)),
        GamePhase::Shooting => assert(tools_of(p)[1] == default_tool_of(p)),
        GamePhase::Charge => assert(tools_of(p)[1] == default_tool_of(p)),
        GamePhase::Fight => assert(tools_of(p)[1] == default_tool_of(p)),
    }
}

/// Phases run Command, Movement, Shooting, Charge, Fight; only Fight ends the
/// turn, and from Command the fifth phase is Fight.
pub proof fn lemma_phase_order(p: GamePhase)
    ensures
        phase_after(p) is None <==> p == GamePhase::Fight,
        phase_after(GamePhase::Command) == Some(GamePhase::Movement),
        phase_after(GamePhase::Movement) == Some(GamePhase::Shooting),
        phase_after(GamePhase::Shooting) == Some(GamePhase::Charge),
        phase_after(GamePhase::Charge) == Some(GamePhase::Fight),
        phase_after(p) != Some(p),
{
}

/// The other side of the other side is the side itself.
pub proof fn lemma_opponent_involution(p: Player)
    ensures
        opponent(opponent(p)) == p,
        opponent(p) != p,
{
}

/// The tools that move units are exactly those whose drags record a move
/// type other than the plain one, plus Move itself.
pub proof fn lemma_movement_tools(t: ActiveTool)
    ensures
        moves_units(t) <==> (t == ActiveTool::Move || move_type_of(t) != MoveType::Normal),
{
}

/// The phases in which a move of type `m` is made: Normal moves, Advances
/// and Fall Backs in Movement, Charges in Charge, Pile Ins and
/// Consolidations in Fight, Reactive moves in every phase but Command.
pub open spec fn move_phase(m: MoveType, p: GamePhase) -> bool {
    match m {
        MoveType::Normal | MoveType::Advance | MoveType::FallBack => p == GamePhase::Movement,
        MoveType::Charge => p == GamePhase::Charge,
        MoveType::PileIn | MoveType::Consolidate => p == GamePhase::Fight,
        MoveType::Reactive => p != GamePhase::Command,
    }
}

/// No tool is listed twice.
pub open spec fn no_repeats(s: Seq<ActiveTool>) -> bool {
    forall|i: int, j: int| 0 <= i < j < s.len() ==> s[i] != s[j]
}

/// The palettes: no phase lists a tool twice; a tool that moves units is
/// offered exactly in the phases where the move it records is made; Select
/// is offered everywhere, Kill everywhere but Command, Battleshock in
/// Command, Shoot and Action in Shooting, Deploy Reserves in Movement, Enter
/// Reserves in Fight, and Measure and Range Ring in no palette.
pub proof fn lemma_palettes(p: GamePhase, t: ActiveTool)
    ensures
        no_repeats(tools_of(p)),
        moves_units(t) ==> (tools_of(p).contains(t) <==> move_phase(move_type_of(t), p)),
        t == ActiveTool::Select ==> tools_of(p).contains(t),
        t == ActiveTool::Kill ==> (tools_of(p).contains(t) <==> p != GamePhase::Command),
        t == ActiveTool::Battleshock ==> (tools_of(p).contains(t) <==> p == GamePhase::Command),
        (t == ActiveTool::ShootAnnotate || t == ActiveTool::PerformAction) ==> (tools_of(p).contains(t)
            <==> p == GamePhase::Shooting),
        t == ActiveTool::DeployReserves ==> (tools_of(p).contains(t) <==> p == GamePhase::Movement),
        t == ActiveTool::EnterReserves ==> (tools_of(p).contains(t) <==> p == GamePhase::Fight),
        (t == ActiveTool::Measure || t == ActiveTool::RangeRing) ==> !tools_of(p).contains(t),
{
    let s = tools_of(p);
    if s.contains(t) {
        let k = choose|k: int| 0 <= k < s.len() && s[k] == t;
        assert(s[k] == t);
    } else {
        assert forall|k: int| 0 <= k < s.len() implies s[k] != t by {}
    }
    assert forall|a: int, b: int| 0 <= a < b < s.len() implies s[a] != s[b] by {
        assert(s[a] == tools_of(p)[a] && s[b] == tools_of(p)[b]);
    }
}

/// A drag with a tool that moves units records the move of the same name:
/// the move type's label is the tool's, and different tools record
/// different move types.
pub proof fn lemma_move_types(t: ActiveTool, u: ActiveTool)
    ensures
        moves_units(t) ==> move_label(move_type_of(t)) == tool_label(t),
        moves_units(t) && moves_units(u) && t != u ==> move_type_of(t) != move_type_of(u),
        !moves_units(t) ==> move_type_of(t) == MoveType::Normal,
{
}

} // verus!
