//! Records whose contents belong to subsystems outside this crate: a script
//! being parsed, a client movement prediction and a predicted route.  The
//! bot library declares them without contents and only hands them to those
//! subsystems, so they carry no fields here either.
use vstd::prelude::*;

verus! {

/// A script being read by the precompiler; its layout is private to the parser.
pub struct script_t {}

/// The outcome of a client movement prediction; its layout is private to the
/// movement code.
pub struct aas_clientmove_s {}

/// The outcome of a route prediction; its layout is private to the routing code.
pub struct aas_predictroute_s {}

} // verus!
