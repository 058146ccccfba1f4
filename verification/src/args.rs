//! Selection of the image path from the command-line argument list.
use vstd::prelude::*;

verus! {

/// Returns the first real argument (the image path), or `None` when the
/// argument list holds nothing beyond the program name.
pub fn get_path(args: Vec<String>) -> (r: Option<String>)
    ensures
        match r {
            Some(p) => args@.len() >= 2 && p@ == args@[1]@,
            None => args@.len() < 2,
        },
{
    if args.len() < 2 {
        return None;
    }
    Some(args[1].clone())
}

} // verus!
