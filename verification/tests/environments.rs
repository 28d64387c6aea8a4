use nox::environment::Environment;
use nox::environment::env_assign;
use nox::environment::env_define;
use nox::environment::env_get;
use nox::environment::push_env;
use nox::expr::Expr;
use nox::expr::LiteralValue;
use nox::stmt::Stmt;

fn v(n: i64) -> LiteralValue {
    LiteralValue::Number(n)
}

#[test]
fn define_then_get() {
    let mut e = Environment::new();
    e.define(String::from("x"), v(1));
    assert_eq!(e.get(&String::from("x")), Some(v(1)));
    assert_eq!(e.get(&String::from("y")), None);
}

#[test]
fn define_overwrites_in_place() {
    let mut e = Environment::new();
    e.define(String::from("x"), v(1));
    e.define(String::from("x"), v(2));
    assert_eq!(e.get(&String::from("x")), Some(v(2)));
    assert!(e.contains(&String::from("x")));
    assert!(!e.contains(&String::from("z")));
}

#[test]
fn lookup_walks_the_chain() {
    let mut envs: Vec<Environment> = vec![Environment::new()];
    env_define(&mut envs, 0, String::from("x"), v(1));
    let child = push_env(&mut envs, 0);
    let grandchild = push_env(&mut envs, child);
    assert_eq!(env_get(&envs, grandchild, &String::from("x")), Some(v(1)));
    assert_eq!(env_get(&envs, grandchild, &String::from("y")), None);
}

#[test]
fn assignment_walks_to_the_owner_and_is_seen_by_siblings() {
    let mut envs: Vec<Environment> = vec![Environment::new()];
    env_define(&mut envs, 0, String::from("x"), v(1));
    let left = push_env(&mut envs, 0);
    let right = push_env(&mut envs, 0);
    assert!(env_assign(&mut envs, left, &String::from("x"), v(7)));
    assert_eq!(env_get(&envs, right, &String::from("x")), Some(v(7)));
}

#[test]
fn assignment_to_an_undeclared_name_fails() {
    let mut envs: Vec<Environment> = vec![Environment::new()];
    let child = push_env(&mut envs, 0);
    assert!(!env_assign(&mut envs, child, &String::from("never"), v(1)));
    assert_eq!(env_get(&envs, child, &String::from("never")), None);
}

#[test]
fn shadowing_hides_without_touching_the_parent() {
    let mut envs: Vec<Environment> = vec![Environment::new()];
    env_define(&mut envs, 0, String::from("x"), v(1));
    let child = push_env(&mut envs, 0);
    env_define(&mut envs, child, String::from("x"), v(2));
    assert_eq!(env_get(&envs, child, &String::from("x")), Some(v(2)));
    assert_eq!(env_get(&envs, 0, &String::from("x")), Some(v(1)));
}

#[test]
fn duplicate_is_a_deep_copy() {
    let stmt = Stmt::Block {
        stmts: vec![Stmt::Var {
            name: String::from("a"),
            initializer: Expr::Literal { value: v(3) },
        }],
    };
    assert_eq!(stmt.duplicate(), stmt);
    let value = LiteralValue::StringValue(String::from("deep"));
    assert_eq!(value.duplicate(), value);
}
