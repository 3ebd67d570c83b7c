use term_rustdoc::line::LineState;
use term_rustdoc::navi::{height, width, Kind, NaviAction, OutlineKind};

#[test]
fn panel_size() {
    assert_eq!(height(), 5);
    assert_eq!(width(), 17);
}

#[test]
fn action_labels() {
    assert_eq!(NaviAction::StructInner.text(), "Fields");
    assert_eq!(NaviAction::EnumInner.text(), "Varaints");
    assert_eq!(NaviAction::TraitInner.text(), "Implementors");
    assert_eq!(NaviAction::ITABImpls.text(), "Impls");
    assert_eq!(NaviAction::Item.text(), "Current Item");
    assert_eq!(NaviAction::BackToHome.text(), "Back To Home");
    for a in [NaviAction::StructInner, NaviAction::Item, NaviAction::ITABImpls] {
        assert_eq!(a.len() as usize, a.text().len());
    }
}

#[test]
fn actions_per_kind() {
    assert_eq!(
        Kind::Struct.lines(),
        vec![NaviAction::Item, NaviAction::StructInner, NaviAction::ITABImpls, NaviAction::BackToHome]
    );
    assert_eq!(Kind::Union.lines(), Kind::Struct.lines());
    assert_eq!(
        Kind::Enum.lines(),
        vec![NaviAction::Item, NaviAction::EnumInner, NaviAction::ITABImpls, NaviAction::BackToHome]
    );
    assert_eq!(Kind::Trait.lines(), vec![NaviAction::Item, NaviAction::TraitInner, NaviAction::BackToHome]);
}

#[test]
fn defaults_and_line_state() {
    assert_eq!(NaviAction::default(), NaviAction::BackToHome);
    assert_eq!(OutlineKind::default(), OutlineKind::Modules);
    assert_eq!(NaviAction::Item.state(), NaviAction::Item);
    assert!(NaviAction::Item.is_identical(&NaviAction::Item));
    assert!(!NaviAction::Item.is_identical(&NaviAction::BackToHome));
}
