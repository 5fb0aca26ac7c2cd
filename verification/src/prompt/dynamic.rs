//! Values of prompt variables that are found at run time.

use vstd::prelude::*;

verus! {

/// Provides the value of a named variable at run time: the date, a user
/// profile, the result of a lookup.
pub trait DynamicContext {
    /// The name of the variable.
    fn key(&self) -> (r: &str);

    /// Finds the value. Called once per rendering.
    fn resolve(&self) -> (r: String);
}

/// A [`DynamicContext`] that can stand in a list beside others of other types.
pub trait ErasedDynamicContext {
    /// Whether the provider may give this name.
    spec fn may_name(&self, name: Seq<char>) -> bool;

    /// Whether the provider may give this value.
    spec fn may_resolve(&self, value: Seq<char>) -> bool;

    /// The name of the variable.
    fn key(&self) -> (r: &str)
        ensures
            self.may_name(r@),
    ;

    /// Finds the value.
    fn resolve_erased(&self) -> (r: String)
        ensures
            self.may_resolve(r@),
    ;
}

impl<T: DynamicContext> ErasedDynamicContext for T {
    open spec fn may_name(&self, name: Seq<char>) -> bool {
        exists|k: &str| #[trigger] call_ensures(T::key, (self,), k) && k@ == name
    }

    open spec fn may_resolve(&self, value: Seq<char>) -> bool {
        exists|v: String| #[trigger] call_ensures(T::resolve, (self,), v) && v@ == value
    }

    fn key(&self) -> (r: &str) {
        self.key()
    }

    fn resolve_erased(&self) -> (r: String) {
        self.resolve()
    }
}

} // verus!
