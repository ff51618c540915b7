//! Composable code generation for derive macros: a generator produces output from an
//! input, a predicate chooses between generators, a transform maps one input to another.
//! `Chain` runs two token generators and joins their streams; `Conditional` runs one of
//! two generators as a predicate decides.
use vstd::prelude::*;
use proc_macro2::TokenStream;

verus! {

#[verifier::external_type_specification]
#[verifier::external_body]
pub struct ExTokenStream(TokenStream);

/// Generates output, typically a token stream, from an input.
pub trait CodeGen<Input> {
    type Output;

    fn generate(input: &Input) -> Self::Output;
}

/// A test on the input that selects a branch of generation.
pub trait Predicate<Input> {
    fn test(input: &Input) -> bool;
}

/// A pure transformation of one input into another.
pub trait Transform<From, To> {
    fn transform(input: &From) -> To;
}

/// The token stream holding the tokens of `a` followed by those of `b`, as
/// `proc_macro2::TokenStream`'s `Extend` impl builds it.
pub uninterp spec fn joined_tokens(a: TokenStream, b: TokenStream) -> TokenStream;

/// Joins two token streams: the tokens of `a`, then those of `b`, by
/// `proc_macro2::TokenStream`'s `Extend` impl. The contract names the joined stream as a
/// function of the two streams.
#[verifier::external_body]
fn joined(a: TokenStream, b: TokenStream) -> (r: TokenStream)
    ensures
        r == joined_tokens(a, b),
{
    let mut s = a;
    s.extend(b);
    s
}

/// Runs `A` then `B` and joins their token streams, `A`'s tokens first.
pub struct Chain<A, B>(core::marker::PhantomData<(A, B)>);

impl<Input, A, B> CodeGen<Input> for Chain<A, B> where
    A: CodeGen<Input, Output = TokenStream>,
    B: CodeGen<Input, Output = TokenStream>,
 {
    type Output = TokenStream;

    fn generate(input: &Input) -> (r: TokenStream)
        ensures
            exists|a: TokenStream, b: TokenStream|
                #![trigger call_ensures(A::generate, (input,), a), call_ensures(B::generate, (input,), b)]
                call_ensures(A::generate, (input,), a) && call_ensures(B::generate, (input,), b)
                    && r == joined_tokens(a, b),
    {
        let a = A::generate(input);
        let b = B::generate(input);
        joined(a, b)
    }
}

/// Runs `T` when `P` holds of the input, else `F`.
pub struct Conditional<P, T, F>(core::marker::PhantomData<(P, T, F)>);

impl<Input, P, T, F> CodeGen<Input> for Conditional<P, T, F> where
    P: Predicate<Input>,
    T: CodeGen<Input, Output = TokenStream>,
    F: CodeGen<Input, Output = TokenStream>,
 {
    type Output = TokenStream;

    fn generate(input: &Input) -> (r: TokenStream)
        ensures
            exists|holds: bool|
                #![trigger call_ensures(P::test, (input,), holds)]
                call_ensures(P::test, (input,), holds)
                    && (holds ==> call_ensures(T::generate, (input,), r))
                    && (!holds ==> call_ensures(F::generate, (input,), r)),
    {
        if P::test(input) {
            T::generate(input)
        } else {
            F::generate(input)
        }
    }
}

} // verus!
