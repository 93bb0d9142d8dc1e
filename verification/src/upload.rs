//! The decisions and accounting of the multipart upload ingestor.
//!
//! The surrounding handler scans the multipart body: a hidden form field
//! carries the destination directory, and each file part carries a
//! client-supplied name and a payload. Everything the handler decides —
//! which role a part plays, whether a file name is safe to use as the
//! destination leaf, the batch counts, the status message and the redirect
//! target — is computed here; only the reads and writes themselves stay
//! outside.

use crate::paths::valid_segment;
use crate::paths::is_valid_segment_str;
use crate::strutil::dec_digits;
use crate::strutil::decimal_string;
use crate::strutil::eq_str;
use vstd::prelude::*;
use vstd::string::*;

verus! {

/// The role one multipart part plays in an upload request.
#[derive(Clone, Copy, PartialEq, Eq, Debug, Structural)]
pub enum PartKind {
    /// The hidden form field naming the destination directory.
    PathField,
    /// A file part carrying a client-supplied file name.
    FilePart,
    /// Anything else; the ingestor passes over it.
    Ignored,
}

/// How a part is treated, by its field name and whether it carries a file
/// name.
pub open spec fn spec_classify(name: Seq<char>, has_filename: bool) -> PartKind {
    if name == "current_path"@ {
        PartKind::PathField
    } else if name == "file"@ && has_filename {
        PartKind::FilePart
    } else {
        PartKind::Ignored
    }
}

/// Classifies one multipart part as the ingestor scans the body.
pub fn classify_part(name: &str, has_filename: bool) -> (k: PartKind)
    ensures
        k == spec_classify(name@, has_filename),
{
    if eq_str(name, "current_path") {
        PartKind::PathField
    } else if eq_str(name, "file") && has_filename {
        PartKind::FilePart
    } else {
        PartKind::Ignored
    }
}

/// Checks a client-supplied file name before it becomes the destination
/// leaf. Only a single safe path segment is accepted, so a name holding a
/// separator or a dot component cannot traverse out of the destination
/// directory that was already containment-checked.
pub fn acceptable_filename(name: &str) -> (b: bool)
    ensures
        b == valid_segment(name@),
{
    is_valid_segment_str(name)
}

/// The status message after an upload batch: nothing written means the
/// upload failed; everything written is reported in full; otherwise the
/// successes are counted against the total.
pub open spec fn spec_upload_message(total: nat, success: nat) -> Seq<char> {
    if success == 0 {
        "upload failed"@
    } else if success == total {
        if total == 1 {
            "file uploaded"@
        } else {
            "all "@ + dec_digits(total) + " files uploaded"@
        }
    } else {
        dec_digits(success) + " of "@ + dec_digits(total) + " files uploaded"@
    }
}

/// The counts of one upload batch: file parts seen, and file parts whose
/// payload was fully written.
pub struct UploadOutcome {
    pub total: u64,
    pub success: u64,
}

impl UploadOutcome {
    /// The counts are consistent: no more successes than files seen.
    pub open spec fn wf(&self) -> bool {
        self.success <= self.total
    }

    pub fn new() -> (o: UploadOutcome)
        ensures
            o.total == 0,
            o.success == 0,
            o.wf(),
    {
        UploadOutcome { total: 0, success: 0 }
    }

    /// Records one file part: it was seen, and its payload either was or
    /// was not fully written.
    pub fn record_file(&mut self, written: bool)
        requires
            old(self).wf(),
            old(self).total < u64::MAX,
        ensures
            final(self).total == old(self).total + 1,
            final(self).success == old(self).success + if written {
                1u64
            } else {
                0u64
            },
            final(self).wf(),
    {
        self.total = self.total + 1;
        if written {
            self.success = self.success + 1;
        }
    }

    /// The status message for this batch.
    pub fn message(&self) -> (m: String)
        requires
            self.wf(),
        ensures
            m@ == spec_upload_message(self.total as nat, self.success as nat),
    {
        if self.success == 0 {
            "upload failed".to_owned()
        } else if self.success == self.total {
            if self.total == 1 {
                "file uploaded".to_owned()
            } else {
                let m = "all ".to_owned().concat(decimal_string(self.total).as_str()).concat(
                    " files uploaded",
                );
                proof {
                    assert(m@ =~= spec_upload_message(self.total as nat, self.success as nat));
                }
                m
            }
        } else {
            let m = decimal_string(self.success).concat(" of ").concat(
                decimal_string(self.total).as_str(),
            ).concat(" files uploaded");
            proof {
                assert(m@ =~= spec_upload_message(self.total as nat, self.success as nat));
            }
            m
        }
    }
}

/// The browsing URL to redirect to after an upload: the destination
/// directory's path behind a leading separator; the root when the path is
/// empty.
pub fn redirect_path(current: &str) -> (r: String)
    ensures
        r@ == seq!['/'] + current@,
{
    let r = "/".to_owned().concat(current);
    proof {
        reveal_strlit("/");
        assert("/"@ =~= seq!['/']);
        assert(r@ =~= seq!['/'] + current@);
    }
    r
}

} // verus!
