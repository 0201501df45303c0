//! What a derived task asks of the types of its fields.
use std::marker::PhantomData;
use vstd::prelude::*;

verus! {

/// What a custom type says about itself in a prompt.
#[derive(Debug)]
pub struct TypeDescription {
    pub name: String,
    pub text: String,
    /// Whether the text stands in place of a schema.
    pub replaces_schema: bool,
}

/// A custom type.
pub trait Type {
    /// What the type says about itself, if anything.
    fn description() -> Option<TypeDescription>;
}

/// A question put to a field's type.
#[derive(Debug)]
pub struct TypeProbe<T>(pub PhantomData<T>);

/// The answer of a field whose type is a custom one. It takes the probe by value, so that it is
/// found before the fallback.
pub trait DescribeViaType {
    fn field_descriptions(self) -> Vec<TypeDescription>;
}

impl<T: Type> DescribeViaType for TypeProbe<T> {
    fn field_descriptions(self) -> (r: Vec<TypeDescription>)
        ensures
            r@.len() <= 1,
            exists|stated: Option<TypeDescription>|
                (#[trigger] call_ensures(T::description, (), stated)) && match stated {
                    Some(description) => r@ == seq![description],
                    None => r@.len() == 0,
                },
    {
        let stated = T::description();
        let ghost said = stated;
        let mut r: Vec<TypeDescription> = Vec::new();
        if let Some(description) = stated {
            r.push(description);
        }
        proof {
            assert(call_ensures(T::description, (), said));
            if said is Some {
                assert(r@ =~= seq![said->0]);
            }
        }
        r
    }
}

/// The answer of every other field.
pub trait DescribeFallback {
    fn field_descriptions(&self) -> Vec<TypeDescription>;
}

impl<T> DescribeFallback for TypeProbe<T> {
    fn field_descriptions(&self) -> (r: Vec<TypeDescription>)
        ensures
            r@.len() == 0,
    {
        Vec::new()
    }
}

} // verus!
