use vstd::prelude::*;

verus! {

/// Some function of `arguments`, of which nothing is known but its `name` and
/// the type `Owner` that it belongs to.
///
/// This is the model of a query that an implementation answers without
/// saying what it computes: the answer is then taken to depend on the
/// arguments of the query alone.
pub open spec fn some_function_of<Owner: ?Sized, Arguments, Value>(name: &str, arguments: Arguments) -> Value {
    arbitrary::<spec_fn(core::marker::PhantomData<Owner>, &str, Arguments) -> Value>()(
        core::marker::PhantomData,
        name,
        arguments,
    )
}

} // verus!
