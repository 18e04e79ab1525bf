//! The meta-command handler: recognizes the one command that asks the
//! shell to shut down.

use vstd::prelude::*;
use vstd::slice::slice_to_vec;
use vstd::string::StringSliceAdditionalSpecFns;

verus! {

/// The UTF-8 bytes of the meta command `.exit`.
pub open spec fn spec_exit_keyword() -> Seq<u8> {
    seq![46u8, 101u8, 120u8, 105u8, 116u8]
}

/// Whether two byte vectors hold the same bytes.
fn bytes_equal(a: &Vec<u8>, b: &Vec<u8>) -> (r: bool)
    ensures
        r == (a@ == b@),
{
    if a.len() != b.len() {
        return false;
    }
    let mut i: usize = 0;
    while i < a.len()
        invariant
            i <= a@.len(),
            a@.len() == b@.len(),
            forall|j: int| 0 <= j < i ==> a@[j] == b@[j],
        decreases a@.len() - i,
    {
        if a[i] != b[i] {
            return false;
        }
        i += 1;
    }
    proof {
        assert(a@ =~= b@);
    }
    true
}

/// Recognizes the shutdown meta command: exactly the line `.exit`.
pub fn do_meta_command(command: &str) -> (r: bool)
    ensures
        r == (command.spec_bytes() == spec_exit_keyword()),
{
    let bytes = slice_to_vec(command.as_bytes());
    let mut kw: Vec<u8> = Vec::new();
    kw.push(46);
    kw.push(101);
    kw.push(120);
    kw.push(105);
    kw.push(116);
    proof {
        assert(kw@ =~= spec_exit_keyword());
    }
    bytes_equal(&bytes, &kw)
}

} // verus!
