use lib::cvar::{Cvar, CvarRegistry};

fn float_of(text: String) -> f32 {
    text.parse::<f32>().unwrap_or(0.0)
}

#[test]
fn registers_and_sets() {
    let mut registry = CvarRegistry::new();
    registry.register(Cvar::new("r_draworder", "1"));
    assert_eq!(float_of(registry.string("r_draworder")), 1.0);

    registry.set("r_draworder", "0");
    assert_eq!(float_of(registry.string("r_draworder")), 0.0);
    assert_eq!(registry.string("r_draworder"), "0");
}

#[test]
fn creates_on_set() {
    let mut registry = CvarRegistry::new();
    registry.set("sv_maxspeed", "320");
    assert_eq!(float_of(registry.string("sv_maxspeed")), 320.0);
}

#[test]
fn register_keeps_the_first_and_set_keeps_flags() {
    let mut registry = CvarRegistry::new();
    registry.register(Cvar::new("name", "player").with_flags(true, true));
    registry.register(Cvar::new("name", "other"));
    assert_eq!(registry.string("name"), "player");
    registry.set("name", "unnamed");
    let var = registry.get("name").unwrap();
    assert_eq!(var.value, "unnamed");
    assert!(var.archive && var.info);
    assert!(registry.get("missing").is_none());
    assert_eq!(registry.string("missing"), "");
}

#[test]
fn archived_lists_each_saved_variable_once() {
    let mut registry = CvarRegistry::new();
    registry.register(Cvar::new("a", "1").with_flags(true, false));
    registry.register(Cvar::new("b", "2"));
    registry.register(Cvar::new("c", "3").with_flags(true, false));
    registry.set("a", "4");
    let mut names: Vec<String> = registry.archived().into_iter().map(|v| v.name).collect();
    names.sort();
    assert_eq!(names, vec!["a".to_string(), "c".to_string()]);
}
