//! Which files are documents.

use vstd::prelude::*;
use vstd::string::StringExecFns;

verus! {

/// Whether a file with this extension is a Markdown document: `md` or
/// `markdown`, in lower case.
pub fn is_markdown_extension(extension: &str) -> (markdown: bool)
    ensures
        markdown == (extension@ == "md"@ || extension@ == "markdown"@),
{
    let extension = String::from_str(extension);
    extension == String::from_str("md") || extension == String::from_str("markdown")
}

} // verus!
