//! Rendering the final mirrorlist: a banner, a provenance block, and one
//! server line per mirror — purely textual, no decision logic.

use vstd::prelude::*;
use vstd::string::StringExecFns;
use crate::mirror::Mirror;

verus! {

/// The provenance of one pipeline run, pre-rendered as text by the caller:
/// the invoking command line, the generation timestamp, the source URL, the
/// retrieval timestamp, and the last observed upstream check time.
#[derive(Debug, Clone, PartialEq)]
pub struct Provenance {
    /// The command line that produced the list.
    pub command: String,
    /// When the list was generated.
    pub when: String,
    /// The URL the metadata came from.
    pub origin: String,
    /// When the metadata was retrieved.
    pub retrieved: String,
    /// The last upstream consistency check.
    pub last_check: String,
}

/// One server line of the mirrorlist: the mirror's base URL with the fixed
/// path-template suffix.
pub open spec fn spec_server_line(url: Seq<char>) -> Seq<char> {
    "Server = "@ + url + "$repo/os/$arch\n"@
}

/// All server lines, in the mirrors' order.
pub open spec fn spec_server_lines(ms: Seq<Mirror>) -> Seq<char>
    decreases ms.len(),
{
    if ms.len() == 0 {
        Seq::empty()
    } else {
        spec_server_lines(ms.drop_last()) + spec_server_line(ms.last().url@)
    }
}

/// The banner and provenance block that precede the server lines.
pub open spec fn spec_header(p: Provenance) -> Seq<char> {
    "################################################################################\n################# Arch Linux mirrorlist generated by Reflector #################\n################################################################################\n\n"@
        + "# With:       "@ + p.command@ + "\n# When:       "@ + p.when@ + "\n# From:       "@
        + p.origin@ + "\n# Retrieved:  "@ + p.retrieved@ + "\n# Last Check: "@ + p.last_check@
        + "\n\n"@
}

/// Renders the complete output: banner, provenance block, then one server
/// line per mirror in the given order. Writing the text to its sink is the
/// caller's business; failures there are the sink's alone.
pub fn render_mirrorlist(p: &Provenance, mirrors: &Vec<Mirror>) -> (r: String)
    ensures
        r@ == spec_header(*p) + spec_server_lines(mirrors@),
{
    let mut out = String::from_str(
        "################################################################################\n################# Arch Linux mirrorlist generated by Reflector #################\n################################################################################\n\n",
    );
    out.append("# With:       ");
    out.append(p.command.as_str());
    out.append("\n# When:       ");
    out.append(p.when.as_str());
    out.append("\n# From:       ");
    out.append(p.origin.as_str());
    out.append("\n# Retrieved:  ");
    out.append(p.retrieved.as_str());
    out.append("\n# Last Check: ");
    out.append(p.last_check.as_str());
    out.append("\n\n");
    proof {
        assert(out@ =~= spec_header(*p));
        assert(mirrors@.take(0) =~= Seq::<Mirror>::empty());
        assert(out@ =~= spec_header(*p) + spec_server_lines(mirrors@.take(0)));
    }
    let mut i: usize = 0;
    while i < mirrors.len()
        invariant
            i <= mirrors@.len(),
            out@ == spec_header(*p) + spec_server_lines(mirrors@.take(i as int)),
        decreases mirrors@.len() - i,
    {
        out.append("Server = ");
        out.append(mirrors[i].url.as_str());
        out.append("$repo/os/$arch\n");
        proof {
            assert(mirrors@.take(i as int + 1).drop_last() =~= mirrors@.take(i as int));
            assert(mirrors@.take(i as int + 1).last() == mirrors@[i as int]);
            assert(out@ =~= spec_header(*p) + spec_server_lines(mirrors@.take(i as int + 1)));
        }
        i += 1;
    }
    proof {
        assert(mirrors@.take(mirrors@.len() as int) =~= mirrors@);
    }
    out
}

} // verus!
