use calculator::executor::{Environment, MathType, TrigMode};
use calculator::number::Number;

fn num(n: i64, d: i64) -> MathType {
    MathType::Number(Number { num: n, den: d })
}

#[test]
fn default_environment_seeds_constants_and_settings() {
    let env = Environment::default();
    let names: Vec<&str> = env.user_vars.iter().map(|p| p.0.as_str()).collect();
    assert_eq!(names, vec!["pi", "PI", "e", "E", "ans"]);
    assert!(env.user_functions.is_empty());
    assert_eq!(env.trig_mode, TrigMode::Deg);
    assert_eq!(env.digit_cap, 9);
}

#[test]
fn insert_replaces_an_existing_binding() {
    let mut env = Environment::default();
    env.insert_var("v".to_string(), num(1, 1));
    env.insert_var("v".to_string(), num(2, 1));
    assert_eq!(env.lookup_var(&"v".to_string()), Some(num(2, 1)));
    assert_eq!(
        env.user_vars.iter().filter(|p| p.0 == "v").count(),
        1
    );
}

#[test]
fn lookup_of_an_unbound_name_is_none() {
    let env = Environment::default();
    assert_eq!(env.lookup_var(&"missing".to_string()), None);
}

#[test]
fn snapshot_is_independent_of_the_original() {
    let mut env = Environment::default();
    env.insert_var("v".to_string(), num(1, 1));
    let mut copy = env.snapshot();
    copy.insert_var("v".to_string(), num(9, 1));
    copy.insert_var("w".to_string(), num(8, 1));
    assert_eq!(env.lookup_var(&"v".to_string()), Some(num(1, 1)));
    assert_eq!(env.lookup_var(&"w".to_string()), None);
    assert_eq!(copy.lookup_var(&"v".to_string()), Some(num(9, 1)));
}
