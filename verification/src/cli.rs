use vstd::prelude::*;
use crate::text::str_eq;

verus! {

/// Returns the argument that follows the first occurrence of `flag` in `args`,
/// or `None` when the flag is missing or is the last argument.
pub fn get_flag_value(args: &[String], flag: &str) -> (r: Option<String>)
    ensures
        r == spec_flag_value(args@, flag@),
{
    let mut index: usize = 0;
    while index < args.len()
        invariant
            index <= args@.len(),
            forall|j: int| 0 <= j < index ==> args@[j]@ != flag@,
        decreases args@.len() - index,
    {
        if str_eq(args[index].as_str(), flag) {
            if index + 1 < args.len() {
                return Some(args[index + 1].clone());
            } else {
                return None;
            }
        }
        index = index + 1;
    }
    None
}

pub open spec fn spec_flag_value(args: Seq<String>, flag: Seq<char>) -> Option<String> {
    if exists|i: int| 0 <= i < args.len() && args[i]@ == flag {
        let i = choose|i: int| 0 <= i < args.len() && args[i]@ == flag && forall|j: int| 0 <= j < i ==> args[j]@ != flag;
        if i + 1 < args.len() { Some(args[i + 1]) } else { None }
    } else {
        None
    }
}

} // verus!
