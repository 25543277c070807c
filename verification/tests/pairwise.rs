use sim_systems::pairwise::{
    interaction_key, interaction_summary_key, is_productive_action, is_resource_competition, needs_conflict_roll,
    select_interaction_type, ActionTarget, InteractionFacts, InteractionType, PairAction,
};

fn facts(same: bool, productive: bool, share: bool, competing: bool, comfort: bool) -> InteractionFacts {
    InteractionFacts {
        same_settlement: same,
        same_productive_action: productive,
        can_share: share,
        competing,
        can_comfort: comfort,
    }
}

#[test]
fn pairwise_cooperate_when_same_action() {
    assert!(is_productive_action(PairAction::Build));
    assert!(!is_productive_action(PairAction::GatherHerbs));
    assert_eq!(select_interaction_type(facts(true, true, true, true, true), true), InteractionType::Cooperate);
}

#[test]
fn interaction_type_share_when_other_is_hungry_and_i_have_carry() {
    let f = facts(true, false, true, false, false);
    assert!(!needs_conflict_roll(f));
    assert_eq!(select_interaction_type(f, false), InteractionType::Share);
}

#[test]
fn conflict_needs_competition_and_the_roll() {
    let here = ActionTarget { action: PairAction::Forage, target_x: Some(3), target_y: Some(4) };
    let there = ActionTarget { action: PairAction::Forage, target_x: Some(3), target_y: Some(5) };
    assert!(is_resource_competition(here, here));
    assert!(!is_resource_competition(here, there));
    let f = facts(false, false, false, true, false);
    assert!(needs_conflict_roll(f));
    assert_eq!(select_interaction_type(f, true), InteractionType::Conflict);
    assert_eq!(select_interaction_type(f, false), InteractionType::Talk);
    assert_eq!(select_interaction_type(facts(true, false, false, true, true), false), InteractionType::Comfort);
    assert_eq!(interaction_key(InteractionType::Comfort), "comfort");
    assert_eq!(interaction_summary_key(InteractionType::Share), "PAIRWISE_SHARE");
}
