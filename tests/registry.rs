use rolebot::reactions::{role_change, Reaction, ReactionEmoji, RoleChange};
use rolebot::registry::Registry;
use rolebot::role_map::{config_positions, AdminConfig, GuildRole, RoleMap};

fn role(name: &str, id: u64) -> GuildRole {
    GuildRole { name: name.to_string(), id }
}

fn config(pairs: &[(&str, &str)]) -> AdminConfig {
    AdminConfig {
        reaction_roles: pairs.iter().map(|(n, e)| (n.to_string(), e.to_string())).collect(),
    }
}

fn unicode(added: bool, e: &str) -> Reaction {
    Reaction { added, emoji: ReactionEmoji::Unicode(e.to_string()) }
}

#[test]
fn population_maps_matching_roles_only() {
    let roles = vec![role("Rustacean", 42), role("Gopher", 7)];
    let cfgs = vec![config(&[("Rustacean", "🦀"), ("Pythonista", "🐍")])];
    let m = RoleMap::from_configs(&roles, &cfgs);
    assert_eq!(m.len(), 1);
    assert_eq!(m.get(&"🦀".to_string()), Some(42));
    assert_eq!(m.get(&"🐍".to_string()), None);
}

#[test]
fn later_config_overwrites_shared_emoji() {
    let roles = vec![role("A", 1), role("B", 2)];
    let cfgs = vec![config(&[("A", "🔥")]), config(&[("B", "🔥")])];
    let m = RoleMap::from_configs(&roles, &cfgs);
    assert_eq!(m.len(), 1);
    assert_eq!(m.get(&"🔥".to_string()), Some(2));
}

#[test]
fn config_name_given_twice_keeps_last_emoji() {
    let cfg = config(&[("A", "🔥"), ("A", "⭐")]);
    assert_eq!(cfg.emoji_for(&"A".to_string()), Some("⭐".to_string()));
    assert_eq!(cfg.emoji_for(&"B".to_string()), None);
}

#[test]
fn empty_population_is_empty() {
    let m = RoleMap::from_configs(&vec![role("A", 1)], &vec![]);
    assert_eq!(m.len(), 0);
    assert_eq!(m.get(&"🔥".to_string()), None);
}

#[test]
fn insert_replaces_existing_emoji() {
    let mut m = RoleMap::new();
    m.insert("🔥".to_string(), 1);
    m.insert("⭐".to_string(), 2);
    m.insert("🔥".to_string(), 3);
    assert_eq!(m.len(), 2);
    assert_eq!(m.get(&"🔥".to_string()), Some(3));
    assert_eq!(m.get(&"⭐".to_string()), Some(2));
}

#[test]
fn registry_lookup_before_and_after_population() {
    let mut reg = Registry::new();
    assert_eq!(reg.lookup(&"🔥".to_string()), None);
    reg.populate(&vec![role("Fire", 42)], &vec![config(&[("Fire", "🔥")])]);
    assert_eq!(reg.lookup(&"🔥".to_string()), Some(42));
    assert_eq!(reg.lookup(&"💧".to_string()), None);
}

#[test]
fn populate_replaces_whole_table() {
    let mut reg = Registry::new();
    reg.populate(&vec![role("Fire", 42)], &vec![config(&[("Fire", "🔥")])]);
    reg.populate(&vec![role("Water", 9)], &vec![config(&[("Water", "💧")])]);
    assert_eq!(reg.lookup(&"🔥".to_string()), None);
    assert_eq!(reg.lookup(&"💧".to_string()), Some(9));
}

#[test]
fn reaction_add_grants_mapped_role_once() {
    let mut reg = Registry::new();
    reg.populate(&vec![role("Fire", 42)], &vec![config(&[("Fire", "🔥")])]);
    let changes: Vec<RoleChange> =
        reg.change_for(&unicode(true, "🔥"), true).into_iter().collect();
    assert_eq!(changes, vec![RoleChange::Grant(42)]);
}

#[test]
fn reaction_remove_revokes_mapped_role() {
    let m = RoleMap::from_configs(&vec![role("Fire", 42)], &vec![config(&[("Fire", "🔥")])]);
    assert_eq!(role_change(&m, &unicode(false, "🔥"), true), Some(RoleChange::Revoke(42)));
}

#[test]
fn reaction_ignored_when_unmapped_custom_or_no_member() {
    let m = RoleMap::from_configs(&vec![role("Fire", 42)], &vec![config(&[("Fire", "🔥")])]);
    assert_eq!(role_change(&m, &unicode(true, "💧"), true), None);
    assert_eq!(role_change(&m, &unicode(true, "🔥"), false), None);
    let custom = Reaction { added: true, emoji: ReactionEmoji::Custom };
    assert_eq!(role_change(&m, &custom, true), None);
}

#[test]
fn repeated_reactions_give_same_change() {
    let m = RoleMap::from_configs(&vec![role("Fire", 42)], &vec![config(&[("Fire", "🔥")])]);
    let first = role_change(&m, &unicode(true, "🔥"), true);
    assert_eq!(role_change(&m, &unicode(true, "🔥"), true), first);
    let off = role_change(&m, &unicode(false, "🔥"), true);
    assert_eq!(role_change(&m, &unicode(false, "🔥"), true), off);
}

#[test]
fn repeated_lookups_see_populated_table() {
    let mut reg = Registry::new();
    reg.populate(&vec![role("Fire", 42), role("Star", 5)], &vec![config(&[("Fire", "🔥"), ("Star", "⭐")])]);
    let shared = std::sync::RwLock::new(reg);
    for _ in 0..100 {
        let guard = shared.read().unwrap();
        assert_eq!(guard.lookup(&"🔥".to_string()), Some(42));
        assert_eq!(guard.lookup(&"⭐".to_string()), Some(5));
    }
}

#[test]
fn reaction_add_then_remove_same_role() {
    let mut reg = Registry::new();
    reg.populate(&vec![role("Fire", 42)], &vec![config(&[("Fire", "🔥")])]);
    assert_eq!(reg.change_for(&unicode(true, "🔥"), true), Some(RoleChange::Grant(42)));
    assert_eq!(reg.change_for(&unicode(false, "🔥"), true), Some(RoleChange::Revoke(42)));
    assert_eq!(reg.change_for(&unicode(true, "💧"), true), None);
}

#[test]
fn lookup_before_population_is_empty() {
    let reg = Registry::new();
    assert_eq!(reg.lookup(&"🔥".to_string()), None);
    assert_eq!(reg.change_for(&unicode(true, "🔥"), true), None);
}

#[test]
fn config_positions_keep_admin_messages_in_order() {
    assert_eq!(config_positions(&vec![7, 3, 7, 9, 7], 7), vec![0, 2, 4]);
    assert_eq!(config_positions(&vec![1, 2], 7), Vec::<usize>::new());
    assert_eq!(config_positions(&vec![], 7), Vec::<usize>::new());
}
