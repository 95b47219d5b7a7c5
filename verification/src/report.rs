//! Rendering of the analysis report and of the deletion log.
//!
//! Analyze mode prints, for every duplicate group, a header naming the
//! digest and the member count, followed by one tab-indented line per
//! member path. Delete mode prints one log line per removal decision. The
//! exact text of every line is pinned down here, so dry runs and real runs
//! produce identical reports.

use vstd::prelude::*;
use crate::hash::{hex_char_str, spec_hex_char};
use crate::index::DataSignature;

verus! {

/// The decimal rendering of a number, most significant digit first.
pub open spec fn spec_decimal(n: nat) -> Seq<char>
    decreases n,
{
    if n < 10 {
        seq![spec_hex_char(n as int)]
    } else {
        spec_decimal(n / 10).push(spec_hex_char((n % 10) as int))
    }
}

/// Renders a number in decimal.
pub fn decimal_string(n: usize) -> (r: String)
    ensures
        r@ == spec_decimal(n as nat),
    decreases n,
{
    if n < 10 {
        let s = String::from_str(hex_char_str(n as u8));
        proof {
            assert(s@ =~= spec_decimal(n as nat));
        }
        s
    } else {
        let mut s = decimal_string(n / 10);
        s.append(hex_char_str((n % 10) as u8));
        proof {
            assert(s@ =~= spec_decimal(n as nat));
        }
        s
    }
}

/// The header line of one duplicate group in the analysis report.
pub open spec fn spec_header_line(digest: Seq<char>, count: nat) -> Seq<char> {
    "File signature "@ + digest + " discovered "@ + spec_decimal(count) + " times:"@
}

/// One member line of the analysis report: a tab, then the path.
pub open spec fn spec_member_line(path: Seq<char>) -> Seq<char> {
    "\t"@ + path
}

/// One log line of delete mode, emitted for a removal decision whether or
/// not a dry run suppressed the removal itself.
pub open spec fn spec_deletion_line(digest: Seq<char>, path: Seq<char>) -> Seq<char> {
    "Deleted hash "@ + digest + " at "@ + path
}

/// Renders the report block of one duplicate group: the header line, then
/// one line per member path, in the group's order.
pub fn render_group(rec: &DataSignature) -> (lines: Vec<String>)
    requires
        rec.files_unique(),
    ensures
        lines@.len() == 1 + rec.files_view().len(),
        lines@[0]@ == spec_header_line(rec.hash_view(), rec.files_set().len()),
        forall|i: int|
            0 <= i < rec.files_view().len() ==> (#[trigger] lines@[i + 1])@ == spec_member_line(
                rec.files_view()[i],
            ),
{
    proof {
        rec.files_view().unique_seq_to_set();
    }
    let mut lines: Vec<String> = Vec::new();
    let mut header = String::from_str("File signature ");
    header.append(rec.hash.as_str());
    header.append(" discovered ");
    let count = decimal_string(rec.files.len());
    header.append(count.as_str());
    header.append(" times:");
    proof {
        assert(header@ =~= spec_header_line(rec.hash_view(), rec.files_set().len()));
    }
    lines.push(header);
    let n = rec.files.len();
    let mut j: usize = 0;
    while j < n
        invariant
            j <= n,
            n == rec.files@.len(),
            lines@.len() == 1 + j,
            lines@[0]@ == spec_header_line(rec.hash_view(), rec.files_set().len()),
            forall|i: int|
                0 <= i < j ==> (#[trigger] lines@[i + 1])@ == spec_member_line(
                    rec.files_view()[i],
                ),
        decreases n - j,
    {
        let ghost prev = lines@;
        let mut line = String::from_str("\t");
        line.append(rec.files[j].as_str());
        proof {
            assert(line@ =~= spec_member_line(rec.files_view()[j as int]));
        }
        lines.push(line);
        proof {
            assert(forall|i: int| 0 <= i < prev.len() ==> (#[trigger] lines@[i]) == prev[i]);
        }
        j = j + 1;
    }
    lines
}

/// Renders one deletion log line.
pub fn render_deletion_line(digest: &String, path: &String) -> (r: String)
    ensures
        r@ == spec_deletion_line(digest@, path@),
{
    let mut line = String::from_str("Deleted hash ");
    line.append(digest.as_str());
    line.append(" at ");
    line.append(path.as_str());
    proof {
        assert(line@ =~= spec_deletion_line(digest@, path@));
    }
    line
}

} // verus!
