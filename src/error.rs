//! The errors that end a rename run, and the message shown for each.
use vstd::prelude::*;
use crate::text::{decimal, push_decimal, push_str, string_of};

verus! {

/// Why a rename run stopped. Every error is fatal to the run.
#[derive(Debug)]
pub enum RenameError {
    /// Patterns that could not be compiled or whose matches could not be read,
    /// by their 0-based position among the patterns, in increasing order.
    Pattern { indices: Vec<usize> },
    /// A matched path whose final component names no file.
    NameExtraction { path: String },
    /// The scratch buffer could not be created.
    BufferWrite,
    /// The names could not be written to the scratch buffer.
    BufferFill,
    /// The scratch buffer could not be read back as text.
    BufferRead,
    /// The edited buffer holds fewer names than there are entries.
    TooFewNames { actual: usize, expected: usize },
    /// The edited buffer holds more names than there are entries.
    TooManyNames { actual: usize, expected: usize },
    /// The entry at `index` could not be renamed: its target already exists,
    /// or the rename itself failed.
    UnsafeRename { index: usize },
}

/// The indices as `#i`, separated by `, `.
pub open spec fn hash_list(indices: Seq<usize>) -> Seq<char>
    decreases indices.len(),
{
    if indices.len() == 0 {
        Seq::<char>::empty()
    } else if indices.len() == 1 {
        seq!['#'] + decimal(indices[0] as nat)
    } else {
        hash_list(indices.drop_last()) + seq![',', ' ', '#'] + decimal(indices.last() as nat)
    }
}

/// The message for patterns that failed at `indices`: one index is named
/// alone; several are listed, the last one joined by `and`.
pub open spec fn pattern_message(indices: Seq<usize>) -> Seq<char> {
    if indices.len() <= 1 {
        "Unable to create search pattern from argument "@ + hash_list(indices) + seq!['.']
    } else {
        "Unable to create search pattern from arguments "@ + hash_list(indices.drop_last())
            + " and #"@ + decimal(indices.last() as nat) + seq!['.']
    }
}

/// The message shown for `e`.
pub open spec fn message_of(e: &RenameError) -> Seq<char> {
    match e {
        RenameError::Pattern { indices } => pattern_message(indices@),
        RenameError::NameExtraction { .. } => "Unable to get file name out of path."@,
        RenameError::BufferWrite => "Unable to open buffer file for writing."@,
        RenameError::BufferFill => "Unable to write filenames to buffer file."@,
        RenameError::BufferRead => "Unable to read filenames from buffer file."@,
        RenameError::TooFewNames { actual, expected } => "Not enough filenames in text file after edit ("@
            + decimal(*actual as nat) + " instead of "@ + decimal(*expected as nat) + ")."@,
        RenameError::TooManyNames { actual, expected } => "Too many filenames in text file after edit ("@
            + decimal(*actual as nat) + " instead of "@ + decimal(*expected as nat) + ")."@,
        RenameError::UnsafeRename { .. } => "file renaming was not safe"@,
    }
}

fn push_hash_list(out: &mut Vec<char>, indices: &Vec<usize>, n: usize)
    requires
        n <= indices@.len(),
    ensures
        final(out)@ == old(out)@ + hash_list(indices@.subrange(0, n as int)),
{
    let mut k: usize = 0;
    assert(hash_list(indices@.subrange(0, 0)) =~= Seq::<char>::empty());
    assert(out@ =~= old(out)@ + hash_list(indices@.subrange(0, 0)));
    while k < n
        invariant
            k <= n <= indices@.len(),
            out@ == old(out)@ + hash_list(indices@.subrange(0, k as int)),
        decreases n - k,
    {
        let ghost before = out@;
        if k == 0 {
            out.push('#');
        } else {
            out.push(',');
            out.push(' ');
            out.push('#');
        }
        push_decimal(out, indices[k]);
        k = k + 1;
        proof {
            let sub = indices@.subrange(0, k as int);
            assert(sub.drop_last() =~= indices@.subrange(0, k - 1));
            assert(sub.last() == indices@[k - 1]);
            if k == 1 {
                assert(out@ =~= old(out)@ + hash_list(sub));
            } else {
                assert(out@ =~= old(out)@ + hash_list(sub));
            }
        }
    }
}

impl RenameError {
    /// The message shown to the user for this error.
    pub fn message(&self) -> (r: String)
        ensures
            r@ == message_of(self),
    {
        let mut out: Vec<char> = Vec::new();
        match self {
            RenameError::Pattern { indices } => {
                let n = indices.len();
                if n <= 1 {
                    push_str(&mut out, "Unable to create search pattern from argument ");
                    push_hash_list(&mut out, indices, n);
                    assert(indices@.subrange(0, n as int) =~= indices@);
                    out.push('.');
                } else {
                    push_str(&mut out, "Unable to create search pattern from arguments ");
                    push_hash_list(&mut out, indices, n - 1);
                    assert(indices@.subrange(0, n - 1) =~= indices@.drop_last());
                    push_str(&mut out, " and #");
                    push_decimal(&mut out, indices[n - 1]);
                    out.push('.');
                }
            },
            RenameError::NameExtraction { .. } => {
                push_str(&mut out, "Unable to get file name out of path.");
            },
            RenameError::BufferWrite => {
                push_str(&mut out, "Unable to open buffer file for writing.");
            },
            RenameError::BufferFill => {
                push_str(&mut out, "Unable to write filenames to buffer file.");
            },
            RenameError::BufferRead => {
                push_str(&mut out, "Unable to read filenames from buffer file.");
            },
            RenameError::TooFewNames { actual, expected } => {
                push_str(&mut out, "Not enough filenames in text file after edit (");
                push_decimal(&mut out, *actual);
                push_str(&mut out, " instead of ");
                push_decimal(&mut out, *expected);
                push_str(&mut out, ").");
            },
            RenameError::TooManyNames { actual, expected } => {
                push_str(&mut out, "Too many filenames in text file after edit (");
                push_decimal(&mut out, *actual);
                push_str(&mut out, " instead of ");
                push_decimal(&mut out, *expected);
                push_str(&mut out, ").");
            },
            RenameError::UnsafeRename { .. } => {
                push_str(&mut out, "file renaming was not safe");
            },
        }
        proof {
            assert(out@ =~= message_of(self));
        }
        string_of(out.as_slice())
    }
}

} // verus!
