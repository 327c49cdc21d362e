//! The shader defines of a specialization, as the lines that stand before the
//! source of a shader.

use vstd::prelude::*;
use vstd::string::StringExecFns;
use crate::names::{find_name, lookup, texts};

verus! {

/// The line that defines `def`.
pub open spec fn define_line(def: Seq<char>) -> Seq<char> {
    "#define "@ + def + "\n"@
}

/// The lines that define the first `k` of the `defs`, in their order, a
/// define that stands there twice only where it stands first.
pub open spec fn preamble_upto(defs: Seq<Seq<char>>, k: int) -> Seq<char>
    decreases k,
{
    if k <= 0 {
        Seq::empty()
    } else if lookup(defs, defs[k - 1]) == Some(k - 1) {
        preamble_upto(defs, k - 1) + define_line(defs[k - 1])
    } else {
        preamble_upto(defs, k - 1)
    }
}

/// The lines that define the `defs`: one line for each define, in the order in
/// which the defines first stand.
pub open spec fn preamble(defs: Seq<Seq<char>>) -> Seq<char> {
    preamble_upto(defs, defs.len() as int)
}

/// The lines that define the `defs`.
pub fn shader_preamble(defs: &Vec<String>) -> (r: String)
    ensures
        r@ == preamble(texts(defs@)),
{
    let mut text = String::new();
    let mut i: usize = 0;
    while i < defs.len()
        invariant
            i <= defs.len(),
            text@ == preamble_upto(texts(defs@), i as int),
        decreases defs.len() - i,
    {
        let ghost before = text@;
        assert(texts(defs@)[i as int] == defs[i as int]@);
        let first = find_name(defs, &defs[i]);
        if first == Some(i) {
            text.append("#define ");
            text.append(defs[i].as_str());
            text.append("\n");
            proof {
                assert(text@ =~= before + define_line(defs[i as int]@));
            }
        }
        i += 1;
    }
    text
}

/// The source of a shader as it is compiled for a specialization: the lines
/// that define its shader defines, then the source of the shader.
pub fn specialized_source(base: &str, defs: &Vec<String>) -> (r: String)
    ensures
        r@ == preamble(texts(defs@)) + base@,
{
    let mut text = shader_preamble(defs);
    text.append(base);
    text
}

} // verus!
