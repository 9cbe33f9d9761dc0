//! Save-file naming.
//!
//! Reading and writing save files is the caller's business; what belongs
//! here is the data carried by an upload and the rules that assemble save
//! file names.

use vstd::prelude::*;

verus! {

use vstd::string::StringExecFns;
use vstd::string::StrSliceExecFns;

/// An uploaded save: its content and the alias chosen by the player.
pub struct SaveCode {
    pub code: String,
    alias: String,
}

impl SaveCode {
    /// The alias as uploaded.
    pub closed spec fn spec_alias(self) -> Seq<char> {
        self.alias@
    }

    /// The uploaded content.
    pub closed spec fn spec_code(self) -> Seq<char> {
        self.code@
    }

    /// An upload of `code` under `alias`.
    pub fn new(code: String, alias: String) -> (r: SaveCode)
        ensures
            r.spec_code() == code@,
            r.spec_alias() == alias@,
    {
        SaveCode { code, alias }
    }

    /// The uploaded content.
    pub fn get_code(&self) -> (r: &str)
        ensures
            r@ == self.spec_code(),
    {
        self.code.as_str()
    }

    /// The alias, with an empty one replaced by `anonymous`.
    pub fn get_alias_no_empty(&self) -> (r: String)
        ensures
            r@ == (if self.spec_alias().len() == 0 {
                "anonymous"@
            } else {
                self.spec_alias()
            }),
    {
        if self.alias.as_str().unicode_len() == 0 {
            String::from_str("anonymous")
        } else {
            self.alias.clone()
        }
    }
}

/// The file name a save identifier is stored under.
pub fn assemble_save_name(save_id: &str) -> (r: String)
    ensures
        r@ == save_id@ + ".save"@,
{
    String::from_str(save_id).concat(".save")
}

/// The file name a fresh upload is stored under: the alias, the timestamp
/// the caller formatted, and the save extension.
pub fn assemble_upload_name(alias: &str, timestamp: &str) -> (r: String)
    ensures
        r@ == alias@ + "@"@ + timestamp@ + ".save"@,
{
    String::from_str(alias).concat("@").concat(timestamp).concat(".save")
}

} // verus!
