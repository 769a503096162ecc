//! Pure registry-value handling: parsing, joining and the length gate.
//!
//! Reading and writing the two registry values, and the advisory lock
//! around a write, are the caller's work; this module owns every rule
//! about the value itself.

use vstd::prelude::*;
use crate::constants;
use crate::error::SpathError;
use crate::text;

verus! {

/// Pure helpers on raw store values.
pub struct RegistryHelper;

impl RegistryHelper {
    /// Splits a raw store value into its entries, dropping empty fields.
    pub fn parse_path_string(path: &str) -> (r: Vec<String>)
        ensures
            r.deep_view() == text::entries(path@),
    {
        let chars = text::chars_of(path);
        let fields = text::split_entries(&chars);
        let mut out: Vec<String> = Vec::new();
        let mut i: usize = 0;
        while i < fields.len()
            invariant
                i <= fields@.len(),
                out.deep_view() == fields.deep_view().subrange(0, i as int),
            decreases fields@.len() - i,
        {
            let ghost before = out.deep_view();
            out.push(text::string_from_chars(&fields[i]));
            proof {
                assert(out.deep_view() =~~= before.push(fields.deep_view()[i as int]));
                assert(before.push(fields.deep_view()[i as int]) =~~= fields.deep_view().subrange(
                    0,
                    i + 1 as int,
                ));
            }
            i += 1;
        }
        proof {
            assert(fields.deep_view().subrange(0, fields.deep_view().len() as int)
                =~~= fields.deep_view());
        }
        out
    }

    /// Joins entries back into one raw store value.
    pub fn join_paths(paths: &Vec<String>) -> (r: String)
        ensures
            r@ == text::join_semi(paths.deep_view()),
    {
        let mut fields: Vec<Vec<char>> = Vec::new();
        let mut i: usize = 0;
        while i < paths.len()
            invariant
                i <= paths@.len(),
                fields.deep_view() == paths.deep_view().subrange(0, i as int),
            decreases paths@.len() - i,
        {
            let ghost before = fields.deep_view();
            fields.push(text::chars_of(paths[i].as_str()));
            proof {
                assert(fields.deep_view() =~~= before.push(paths.deep_view()[i as int]));
                assert(before.push(paths.deep_view()[i as int]) =~~= paths.deep_view().subrange(
                    0,
                    i + 1 as int,
                ));
            }
            i += 1;
        }
        proof {
            assert(paths.deep_view().subrange(0, paths.deep_view().len() as int)
                =~~= paths.deep_view());
        }
        let joined = text::join_fields(&fields);
        text::string_from_chars(&joined)
    }

    /// The length gate before any write: a value longer than the Windows
    /// limit is rejected and must never reach the registry.
    pub fn validate_path_length(path: &str) -> (r: Result<(), SpathError>)
        ensures
            r is Ok <==> path@.len() <= constants::MAX_PATH_LENGTH,
            r is Err ==> r->Err_0 is ValidationError,
    {
        let chars = text::chars_of(path);
        if chars.len() > constants::MAX_PATH_LENGTH {
            Err(
                SpathError::ValidationError(
                    "PATH exceeds maximum length of 2047 characters".to_owned(),
                ),
            )
        } else {
            Ok(())
        }
    }
}

/// Round trip of the raw value: non-empty, separator-free entries joined
/// with `;` and parsed again come back exactly.
pub proof fn lemma_parse_of_join(v: Seq<Seq<char>>)
    requires
        forall|i: int| 0 <= i < v.len() ==> (#[trigger] v[i]).len() > 0,
        forall|i: int| 0 <= i < v.len() ==> !text::has_char(#[trigger] v[i], ';'),
    ensures
        text::entries(text::join_semi(v)) == v,
{
    text::lemma_entries_of_join(v);
}

} // verus!
