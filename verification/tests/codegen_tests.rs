use macrokid_graphics::codegen::{Chain, CodeGen, Conditional, Predicate};
use proc_macro2::TokenStream as TokenStream2;
use std::str::FromStr;

struct HelloGen;
impl CodeGen<()> for HelloGen {
    type Output = TokenStream2;
    fn generate(_: &()) -> Self::Output {
        TokenStream2::from_str("fn hello() {}").unwrap()
    }
}

struct WorldGen;
impl CodeGen<()> for WorldGen {
    type Output = TokenStream2;
    fn generate(_: &()) -> Self::Output {
        TokenStream2::from_str("fn world() {}").unwrap()
    }
}

struct AlwaysTrue;
impl Predicate<()> for AlwaysTrue {
    fn test(_: &()) -> bool {
        true
    }
}

struct AlwaysFalse;
impl Predicate<()> for AlwaysFalse {
    fn test(_: &()) -> bool {
        false
    }
}

#[test]
fn chain_concatenates() {
    type Both = Chain<HelloGen, WorldGen>;
    let ts = Both::generate(&());
    let s = ts.to_string();
    assert!(s.contains("fn hello"));
    assert!(s.contains("fn world"));
}

#[test]
fn conditional_branches() {
    type Then = Conditional<AlwaysTrue, HelloGen, WorldGen>;
    type Else = Conditional<AlwaysFalse, HelloGen, WorldGen>;
    let a = Then::generate(&());
    let b = Else::generate(&());
    assert!(a.to_string().contains("fn hello"));
    assert!(b.to_string().contains("fn world"));
}

#[test]
fn chain_keeps_the_order_of_its_parts() {
    type Both = Chain<WorldGen, HelloGen>;
    let s = Both::generate(&()).to_string();
    let world = s.find("world").unwrap();
    let hello = s.find("hello").unwrap();
    assert!(world < hello);
}
