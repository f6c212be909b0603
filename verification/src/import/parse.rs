//! Import file format detection.
use vstd::prelude::*;
use vstd::string::StringSliceAdditionalSpecFns;

use crate::error::{text, text3};

verus! {

/// Supported import file formats.
#[derive(Clone, Copy, Debug, PartialEq, Eq, Structural)]
pub enum ImportFormat {
    Yaml,
    Json,
    Toml,
}

/// The format a file extension names: `yml`/`yaml`, `json` or `toml`,
/// matched exactly.
pub open spec fn format_of_extension(ext: Seq<char>) -> Option<ImportFormat> {
    if ext == "yml"@ || ext == "yaml"@ {
        Some(ImportFormat::Yaml)
    } else if ext == "json"@ {
        Some(ImportFormat::Json)
    } else if ext == "toml"@ {
        Some(ImportFormat::Toml)
    } else {
        None
    }
}

/// Whole-text equality.
pub fn same_text(a: &str, b: &str) -> (r: bool)
    ensures
        r == (a@ == b@),
{
    let x = a.as_bytes();
    let y = b.as_bytes();
    if x.len() != y.len() {
        proof {
            if a@ == b@ {
                assert(a.spec_bytes() == b.spec_bytes());
            }
        }
        return false;
    }
    let mut i: usize = 0;
    while i < x.len()
        invariant
            x@ == a.spec_bytes(),
            y@ == b.spec_bytes(),
            x@.len() == y@.len(),
            i <= x@.len(),
            forall|k: int| 0 <= k < i ==> x@[k] == y@[k],
        decreases x@.len() - i,
    {
        if x[i] != y[i] {
            proof {
                if a@ == b@ {
                    assert(a.spec_bytes() == b.spec_bytes());
                }
            }
            return false;
        }
        i = i + 1;
    }
    proof {
        assert(a.spec_bytes() =~= b.spec_bytes());
        vstd::utf8::encode_utf8_decode_utf8(a@);
        vstd::utf8::encode_utf8_decode_utf8(b@);
    }
    true
}

/// The import format named by a file extension (`None` when the file has
/// no extension).
pub fn detect_format(extension: Option<&str>) -> (r: Result<ImportFormat, String>)
    ensures
        match extension {
            Some(e) => match format_of_extension(e@) {
                Some(f) => r == Result::<ImportFormat, String>::Ok(f),
                None => r matches Err(m) && m@ == "Unknown import file extension '."@ + e@
                    + "'. Use .yml, .yaml, .json, or .toml"@,
            },
            None => r matches Err(m) && m@ == "Import file must have an extension (.yml, .yaml, .json, or .toml)"@,
        },
{
    match extension {
        Some(e) => {
            if same_text(e, "yml") || same_text(e, "yaml") {
                Ok(ImportFormat::Yaml)
            } else if same_text(e, "json") {
                Ok(ImportFormat::Json)
            } else if same_text(e, "toml") {
                Ok(ImportFormat::Toml)
            } else {
                Err(text3("Unknown import file extension '.", e, "'. Use .yml, .yaml, .json, or .toml"))
            }
        },
        None => Err(text("Import file must have an extension (.yml, .yaml, .json, or .toml)")),
    }
}

} // verus!
