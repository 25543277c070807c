use vstd::prelude::*;

verus! {

/// Kinds of pairwise interaction.
#[derive(Debug, Clone, Copy, PartialEq, Eq, Structural)]
pub enum InteractionType {
    Talk,
    Cooperate,
    Share,
    Conflict,
    Comfort,
}

/// The key under which an interaction is reported.
pub fn interaction_key(t: InteractionType) -> (k: &'static str)
    ensures
        k@ == match t {
            InteractionType::Talk => "talk"@,
            InteractionType::Cooperate => "cooperate"@,
            InteractionType::Share => "share"@,
            InteractionType::Conflict => "conflict"@,
            InteractionType::Comfort => "comfort"@,
        },
{
    match t {
        InteractionType::Talk => "talk",
        InteractionType::Cooperate => "cooperate",
        InteractionType::Share => "share",
        InteractionType::Conflict => "conflict",
        InteractionType::Comfort => "comfort",
    }
}

/// The summary key of an interaction.
pub fn interaction_summary_key(t: InteractionType) -> (k: &'static str)
    ensures
        k@ == match t {
            InteractionType::Talk => "PAIRWISE_TALK"@,
            InteractionType::Cooperate => "PAIRWISE_COOPERATE"@,
            InteractionType::Share => "PAIRWISE_SHARE"@,
            InteractionType::Conflict => "PAIRWISE_CONFLICT"@,
            InteractionType::Comfort => "PAIRWISE_COMFORT"@,
        },
{
    match t {
        InteractionType::Talk => "PAIRWISE_TALK",
        InteractionType::Cooperate => "PAIRWISE_COOPERATE",
        InteractionType::Share => "PAIRWISE_SHARE",
        InteractionType::Conflict => "PAIRWISE_CONFLICT",
        InteractionType::Comfort => "PAIRWISE_COMFORT",
    }
}

/// What an agent is doing, as pairwise interaction sees it.
#[derive(Debug, Clone, Copy, PartialEq, Eq, Structural)]
pub enum PairAction {
    Forage,
    Build,
    GatherWood,
    GatherStone,
    GatherHerbs,
    Hunt,
    /// Any other action.
    Other,
}

/// Productive actions: foraging, building, gathering wood or stone, and
/// hunting.
pub open spec fn is_productive_spec(a: PairAction) -> bool {
    a == PairAction::Forage || a == PairAction::Build || a == PairAction::GatherWood
        || a == PairAction::GatherStone || a == PairAction::Hunt
}

/// Whether an action is productive.
pub fn is_productive_action(a: PairAction) -> (b: bool)
    ensures
        b == is_productive_spec(a),
        !b <==> (a == PairAction::GatherHerbs || a == PairAction::Other),
{
    match a {
        PairAction::Forage | PairAction::Build | PairAction::GatherWood | PairAction::GatherStone | PairAction::Hunt => true,
        _ => false,
    }
}

/// An agent's action and the tile it acts on, if any.
#[derive(Debug, Clone, Copy)]
pub struct ActionTarget {
    pub action: PairAction,
    pub target_x: Option<i32>,
    pub target_y: Option<i32>,
}

/// Two agents compete for a resource: the source gathers (forage, wood,
/// stone, herbs or hunt), both do the same, and both act on the same tile.
pub open spec fn competes_spec(s: ActionTarget, t: ActionTarget) -> bool {
    &&& (s.action == PairAction::Forage || s.action == PairAction::GatherWood || s.action == PairAction::GatherStone
        || s.action == PairAction::GatherHerbs || s.action == PairAction::Hunt)
    &&& s.action == t.action
    &&& s.target_x is Some && s.target_x == t.target_x
    &&& s.target_y is Some && s.target_y == t.target_y
}

/// Whether two agents compete for a resource.
pub fn is_resource_competition(s: ActionTarget, t: ActionTarget) -> (b: bool)
    ensures
        b == competes_spec(s, t),
        b == competes_spec(t, s),
        b ==> s.action == t.action && s.action != PairAction::Build && s.action != PairAction::Other,
        b ==> s.target_x is Some && s.target_y is Some && s.target_x == t.target_x && s.target_y == t.target_y,
        (s.action == t.action && s.action != PairAction::Build && s.action != PairAction::Other && s.target_x is Some
            && s.target_y is Some && s.target_x == t.target_x && s.target_y == t.target_y) ==> b,
{
    let gathering = match s.action {
        PairAction::Forage | PairAction::GatherWood | PairAction::GatherStone | PairAction::GatherHerbs | PairAction::Hunt => true,
        _ => false,
    };
    let same_x = match (s.target_x, t.target_x) {
        (Some(a), Some(b)) => a == b,
        _ => false,
    };
    let same_y = match (s.target_y, t.target_y) {
        (Some(a), Some(b)) => a == b,
        _ => false,
    };
    gathering && s.action == t.action && same_x && same_y
}

/// What decides the kind of an interaction from a source to a target.
#[derive(Debug, Clone, Copy, PartialEq, Eq, Structural)]
pub struct InteractionFacts {
    /// Both belong to the same settlement.
    pub same_settlement: bool,
    /// Both do the same productive action.
    pub same_productive_action: bool,
    /// The source carries something and the target is hungry.
    pub can_share: bool,
    /// They compete for a resource.
    pub competing: bool,
    /// The target is stressed and the source agreeable.
    pub can_comfort: bool,
}

/// A chance roll for conflict is needed: neither cooperation nor sharing
/// applies and the two compete.
pub open spec fn needs_roll_spec(f: InteractionFacts) -> bool {
    !(f.same_settlement && f.same_productive_action) && !(f.same_settlement && f.can_share) && f.competing
}

/// Whether a chance roll for conflict is needed.
pub fn needs_conflict_roll(f: InteractionFacts) -> (b: bool)
    ensures
        b == needs_roll_spec(f),
        b ==> f.competing,
        b <==> (interaction_spec(f, true) == InteractionType::Conflict),
        !b ==> interaction_spec(f, true) == interaction_spec(f, false),
{
    !(f.same_settlement && f.same_productive_action) && !(f.same_settlement && f.can_share) && f.competing
}

/// The interaction: cooperation for settlement mates doing the same
/// productive work; else sharing with a hungry mate; else conflict when
/// competing and the roll says so; else comfort for a stressed mate; else
/// talk.
pub open spec fn interaction_spec(f: InteractionFacts, conflict_roll: bool) -> InteractionType {
    if f.same_settlement && f.same_productive_action {
        InteractionType::Cooperate
    } else if f.same_settlement && f.can_share {
        InteractionType::Share
    } else if f.competing && conflict_roll {
        InteractionType::Conflict
    } else if f.same_settlement && f.can_comfort {
        InteractionType::Comfort
    } else {
        InteractionType::Talk
    }
}

/// Settlement law: cooperation, sharing and comfort happen only between
/// members of the same settlement; agents of different settlements only
/// talk or, when competing and the roll says so, fight.
pub proof fn lemma_mates_only(f: InteractionFacts, conflict_roll: bool)
    ensures
        interaction_spec(f, conflict_roll) == InteractionType::Cooperate ==> f.same_settlement && f.same_productive_action,
        interaction_spec(f, conflict_roll) == InteractionType::Share ==> f.same_settlement && f.can_share,
        interaction_spec(f, conflict_roll) == InteractionType::Comfort ==> f.same_settlement && f.can_comfort,
        interaction_spec(f, conflict_roll) == InteractionType::Conflict ==> f.competing && conflict_roll,
        !f.same_settlement ==> interaction_spec(f, conflict_roll) == (if f.competing && conflict_roll {
            InteractionType::Conflict
        } else {
            InteractionType::Talk
        }),
{
}

/// The interaction from a source to a target (see [`interaction_spec`]).
/// `conflict_roll` is read only when [`needs_conflict_roll`] holds.
pub fn select_interaction_type(f: InteractionFacts, conflict_roll: bool) -> (t: InteractionType)
    ensures
        t == interaction_spec(f, conflict_roll),
        !needs_roll_spec(f) ==> t == interaction_spec(f, false),
        (t == InteractionType::Cooperate) <==> (f.same_settlement && f.same_productive_action),
        (t == InteractionType::Share) <==> (f.same_settlement && !f.same_productive_action && f.can_share),
        (t == InteractionType::Conflict) <==> (f.competing && conflict_roll
            && !(f.same_settlement && (f.same_productive_action || f.can_share))),
        (t == InteractionType::Comfort) <==> (f.same_settlement && f.can_comfort && !f.same_productive_action
            && !f.can_share && !(f.competing && conflict_roll)),
        !f.same_settlement ==> (t == InteractionType::Conflict || t == InteractionType::Talk),
{
    if f.same_settlement && f.same_productive_action {
        InteractionType::Cooperate
    } else if f.same_settlement && f.can_share {
        InteractionType::Share
    } else if f.competing && conflict_roll {
        InteractionType::Conflict
    } else if f.same_settlement && f.can_comfort {
        InteractionType::Comfort
    } else {
        InteractionType::Talk
    }
}

} // verus!
