//! Defaults for what the caller left out.

use vstd::prelude::*;

verus! {

/// The value of `opt` if there is one, else `def`.
pub open spec fn spec_default_move<T>(opt: Option<T>, def: T) -> T {
    match opt {
        Some(t) => t,
        None => def,
    }
}

/// If the option holds a value, moves it into the result; otherwise moves
/// the default into the result.
pub fn get_default_move<T>(opt: Option<T>, def: T) -> (value: T)
    ensures
        value == spec_default_move(opt, def),
        opt is Some ==> value == opt->Some_0,
        opt is None ==> value == def,
{
    match opt {
        Some(t) => t,
        None => def,
    }
}

} // verus!
