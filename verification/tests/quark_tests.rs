use quark::quark::{forge_hadron, quark_list_text, random_quark, QuarkType};

#[test]
fn proton_combination_valid() {
    let h = forge_hadron(vec![QuarkType::Up, QuarkType::Up, QuarkType::Down]);
    assert!(h.is_some());
    assert_eq!(h.unwrap().kind, "Proton");
}

#[test]
fn neutron_combination_valid() {
    let h = forge_hadron(vec![QuarkType::Up, QuarkType::Down, QuarkType::Down]);
    assert!(h.is_some());
    assert_eq!(h.unwrap().kind, "Neutron");
}

#[test]
fn invalid_combination_fails() {
    let h = forge_hadron(vec![QuarkType::Charm, QuarkType::Top, QuarkType::Bottom]);
    assert!(h.is_none());
}

#[test]
fn hadron_id_and_composition() {
    let h = forge_hadron(vec![QuarkType::Up, QuarkType::Up, QuarkType::Down]).unwrap();
    assert_eq!(h.id, "[Up, Up, Down]");
    assert_eq!(h.composition, vec![QuarkType::Up, QuarkType::Up, QuarkType::Down]);
    let n = forge_hadron(vec![QuarkType::Up, QuarkType::Down, QuarkType::Down]).unwrap();
    assert_eq!(n.id, format!("{:?}", vec![QuarkType::Up, QuarkType::Down, QuarkType::Down]));
}

#[test]
fn recipes_ignore_order_but_not_length() {
    let p = forge_hadron(vec![QuarkType::Down, QuarkType::Up, QuarkType::Up]).unwrap();
    assert_eq!(p.kind, "Proton");
    assert_eq!(p.id, "[Down, Up, Up]");
    assert_eq!(p.composition, vec![QuarkType::Down, QuarkType::Up, QuarkType::Up]);
    let n = forge_hadron(vec![QuarkType::Down, QuarkType::Up, QuarkType::Down]).unwrap();
    assert_eq!(n.kind, "Neutron");
    assert!(forge_hadron(vec![QuarkType::Down, QuarkType::Down, QuarkType::Down]).is_none());
    assert!(forge_hadron(vec![QuarkType::Up, QuarkType::Up, QuarkType::Up]).is_none());
    assert!(forge_hadron(vec![QuarkType::Up, QuarkType::Strange, QuarkType::Down]).is_none());
    assert!(forge_hadron(vec![QuarkType::Up, QuarkType::Up]).is_none());
    assert!(forge_hadron(vec![QuarkType::Up, QuarkType::Up, QuarkType::Down, QuarkType::Down]).is_none());
    assert!(forge_hadron(vec![]).is_none());
}

#[test]
fn quark_list_text_matches_debug() {
    let all = vec![
        QuarkType::Up,
        QuarkType::Down,
        QuarkType::Charm,
        QuarkType::Strange,
        QuarkType::Top,
        QuarkType::Bottom,
    ];
    assert_eq!(quark_list_text(&all), format!("{:?}", all));
    assert_eq!(quark_list_text(&[]), "[]");
}

#[test]
fn random_quark_is_a_flavour() {
    for _ in 0..50 {
        let q = random_quark();
        assert!(matches!(
            q,
            QuarkType::Up
                | QuarkType::Down
                | QuarkType::Charm
                | QuarkType::Strange
                | QuarkType::Top
                | QuarkType::Bottom
        ));
    }
}
