//! The message shown to the user for each kind of problem.

use vstd::prelude::*;
use crate::listing::{join_texts, texts_of, DisplayableVec};
use crate::names::{version_text, ApiSpecFileName, VersionedApiSpecFileName};
use crate::problems::Problem;
use crate::text::{chars_of, push_chars, push_str_chars, string_from_chars};

verus! {

/// Every character is printable ASCII (space to `~`) and none is a quote or
/// a backslash.
pub open spec fn plain_ascii(s: Seq<char>) -> bool {
    forall|i: int| 0 <= i < s.len() ==> ' ' <= #[trigger] s[i] <= '~' && s[i] != '"' && s[i] != '\'' && s[i] != '\\'
}

/// The text that `{:?}` writes for a string (quoted and escaped); a
/// `camino::Utf8Path` writes the same, as its `Debug` forwards to `str`'s.
pub uninterp spec fn str_debug_text(s: Seq<char>) -> Seq<char>;

/// Formats a string with `{:?}`.
///
/// Trusted: the result is `str_debug_text` of the string; a string of
/// printable ASCII characters other than quotes and backslashes is written
/// as it is, between double quotes. Std's escaping of other characters is
/// not restated here.
#[verifier::external_body]
fn str_debug_call(s: &str) -> (res: String)
    ensures
        res@ == str_debug_text(s@),
        plain_ascii(s@) ==> res@ == seq!['"'] + s@ + seq!['"'],
{
    format!("{:?}", s)
}

/// The path of a versioned file name.
pub open spec fn vpath(n: VersionedApiSpecFileName) -> Seq<char> {
    ApiSpecFileName::Versioned(n).path_view()
}

/// The message of a problem.
pub open spec fn problem_message(p: Problem) -> Seq<char> {
    match p {
        Problem::LocalSpecFileOrphaned { spec_file_name } =>
            "A local OpenAPI document was found that does not correspond to a supported version of this API: "@
            + vpath(spec_file_name)
            + ".  This is unusual, but it could happen if you're either retiring an older version of this API or if you created this version in this branch and later merged with upstream and had to change your local version number.  In either case, this tool can remove the unused file for you."@,
        Problem::UnparseableLocalFile { path } => "A local OpenAPI document could not be parsed: "@ + path@
            + ". This may happen if the file has merge conflict markers or is otherwise corrupted. This tool can delete this file and regenerate the correct one for you."@,
        Problem::BlessedVersionMissingLocal { blessed, .. } =>
            "This version is blessed, and it's a supported version, but it's missing a local OpenAPI document. This can happen with dependent commits or PRs. This tool can restore the file from the blessed version for you: "@
            + vpath(blessed),
        Problem::BlessedVersionExtraLocalSpec { spec_file_name } =>
            "For this blessed version, found an extra OpenAPI document that does not match the blessed (upstream) OpenAPI document: "@
            + vpath(spec_file_name)
            + ".  This can happen if you created this version of the API in this branch, then merged with an upstream commit that also added the same version number.  In that case, you likely already bumped your local version number (when you merged the list of supported versions in Rust) and this file is vestigial. This tool can remove the unused file for you."@,
        Problem::BlessedVersionCompareError { error } =>
            "error comparing OpenAPI document generated from current code with blessed document (from upstream): "@
            + error@,
        Problem::BlessedVersionBroken { .. } =>
            "OpenAPI document generated from the current code is not compatible with the blessed document (from upstream)"@,
        Problem::BlessedLatestVersionBytewiseMismatch { .. } =>
            "For the latest blessed version, the OpenAPI document generated from the current code is wire-compatible but not bytewise identical to the blessed document. This implies one or more trivial changes such as type renames or documentation updates. To proceed, bump the API version in the `api_versions!` macro; unless you're introducing other changes, there's no need to make changes to any endpoints."@,
        Problem::LockstepMissingLocal { .. } =>
            "No local OpenAPI document was found for this lockstep API.  This is only expected if you're adding a new lockstep API.  This tool can generate the file for you."@,
        Problem::LockstepStale { generated, .. } =>
            "For this lockstep API, OpenAPI document generated from the current code does not match the local file: "@
            + str_debug_text(generated.path_view())
            + ".  This tool can update the local file for you."@,
        Problem::LocalVersionMissingLocal { .. } =>
            "No OpenAPI document was found for this locally-added API version.  This is normal if you have added or changed this API version.  This tool can generate the file for you."@,
        Problem::LocalVersionExtra { spec_file_names } =>
            "Extra (incorrect) OpenAPI documents were found for locally-added version: "@ + join_texts(
                texts_of(spec_file_names@),
                ", "@,
            ) + ".  This tool can remove the files for you."@,
        Problem::LocalVersionStale { spec_files, .. } =>
            "For this locally-added version, the OpenAPI document generated from the current code does not match the local file: "@
            + join_texts(texts_of(spec_files@), ", "@)
            + ". This tool can update the local file(s) for you."@,
        Problem::GeneratedSourceMissing { .. } =>
            "No generated OpenAPI document was found for this API. When using --generated-from-dir, the specified directory must contain documents for all configured APIs."@,
        Problem::GeneratedValidationError { api_ident, version, .. } => "Generated OpenAPI document for API "@
            + str_debug_text(api_ident@) + " version "@ + version_text(version) + " is not valid"@,
        Problem::ExtraFileStale { api_ident, path, .. } => "Additional validated file associated with API "@
            + str_debug_text(api_ident@) + " is stale: "@ + path@,
        Problem::LatestLinkMissing { api_ident, .. } => "\"Latest\" symlink for versioned API "@
            + str_debug_text(api_ident@) + " is missing"@,
        Problem::LatestLinkStale { api_ident, found, link } => "\"Latest\" symlink for versioned API "@
            + str_debug_text(api_ident@) + " is stale: points to "@ + found.basename_view()
            + ", but should be "@ + link.basename_view(),
        Problem::BlessedVersionShouldBeGitStub { .. } =>
            "Blessed non-latest version is stored as a full JSON file. This can be converted to a Git stub. This tool can perform the conversion for you."@,
        Problem::GitStubShouldBeJson { .. } =>
            "Blessed version is stored as a Git stub, but should be stored as JSON. This tool can perform the conversion for you."@,
        Problem::BlessedVersionCorruptedLocal { .. } =>
            "Local file for this blessed version is corrupted (possibly due to merge conflict markers). This tool can regenerate the file from the blessed version for you."@,
        Problem::DuplicateLocalFile { .. } =>
            "Duplicate local file found: both JSON and Git stub versions exist for this API version. This tool can remove the redundant file for you."@,
        Problem::GitStubCommitStale { .. } =>
            "Git stub has an outdated commit reference that is no longer an ancestor of the merge base. This can happen after a rebase or force-push. This tool can update the Git stub for you."@,
        Problem::GitStubFirstCommitUnknown { .. } =>
            "The first commit for this blessed version could not be determined. This may indicate a corrupted repository or other VCS-related issue. Git stub storage requires complete VCS history access"@,
    }
}

fn push_string(out: &mut Vec<char>, s: &String)
    ensures
        final(out)@ == old(out)@ + s@,
{
    push_chars(out, chars_of(s.as_str()).as_slice());
}

fn copy_names(v: &Vec<VersionedApiSpecFileName>) -> (res: Vec<VersionedApiSpecFileName>)
    ensures
        res@ == v@,
{
    let mut out: Vec<VersionedApiSpecFileName> = Vec::new();
    let mut i: usize = 0;
    while i < v.len()
        invariant
            i <= v@.len(),
            out@ == v@.subrange(0, i as int),
        decreases v@.len() - i,
    {
        out.push(v[i].duplicate());
        i = i + 1;
        assert(out@ =~= v@.subrange(0, i as int));
    }
    assert(v@.subrange(0, v@.len() as int) =~= v@);
    out
}

fn copy_file_names(v: &Vec<ApiSpecFileName>) -> (res: Vec<ApiSpecFileName>)
    ensures
        res@ == v@,
{
    let mut out: Vec<ApiSpecFileName> = Vec::new();
    let mut i: usize = 0;
    while i < v.len()
        invariant
            i <= v@.len(),
            out@ == v@.subrange(0, i as int),
        decreases v@.len() - i,
    {
        out.push(v[i].duplicate());
        i = i + 1;
        assert(out@ =~= v@.subrange(0, i as int));
    }
    assert(v@.subrange(0, v@.len() as int) =~= v@);
    out
}

impl Problem {
    /// The message shown for this problem (see `problem_message`).
    pub fn message(&self) -> (res: String)
        ensures
            res@ == problem_message(*self),
    {
        let mut out: Vec<char> = Vec::new();
        match self {
            Problem::LocalSpecFileOrphaned { spec_file_name } => {
                push_str_chars(&mut out, "A local OpenAPI document was found that does not correspond to a supported version of this API: ");
                push_string(&mut out, &spec_file_name.path_text());
                push_str_chars(&mut out, ".  This is unusual, but it could happen if you're either retiring an older version of this API or if you created this version in this branch and later merged with upstream and had to change your local version number.  In either case, this tool can remove the unused file for you.");
            },
            Problem::UnparseableLocalFile { path } => {
                push_str_chars(&mut out, "A local OpenAPI document could not be parsed: ");
                push_string(&mut out, path);
                push_str_chars(&mut out, ". This may happen if the file has merge conflict markers or is otherwise corrupted. This tool can delete this file and regenerate the correct one for you.");
            },
            Problem::BlessedVersionMissingLocal { blessed, .. } => {
                push_str_chars(&mut out, "This version is blessed, and it's a supported version, but it's missing a local OpenAPI document. This can happen with dependent commits or PRs. This tool can restore the file from the blessed version for you: ");
                push_string(&mut out, &blessed.path_text());
            },
            Problem::BlessedVersionExtraLocalSpec { spec_file_name } => {
                push_str_chars(&mut out, "For this blessed version, found an extra OpenAPI document that does not match the blessed (upstream) OpenAPI document: ");
                push_string(&mut out, &spec_file_name.path_text());
                push_str_chars(&mut out, ".  This can happen if you created this version of the API in this branch, then merged with an upstream commit that also added the same version number.  In that case, you likely already bumped your local version number (when you merged the list of supported versions in Rust) and this file is vestigial. This tool can remove the unused file for you.");
            },
            Problem::BlessedVersionCompareError { error } => {
                push_str_chars(&mut out, "error comparing OpenAPI document generated from current code with blessed document (from upstream): ");
                push_string(&mut out, error);
            },
            Problem::BlessedVersionBroken { .. } => {
                push_str_chars(&mut out, "OpenAPI document generated from the current code is not compatible with the blessed document (from upstream)");
            },
            Problem::BlessedLatestVersionBytewiseMismatch { .. } => {
                push_str_chars(&mut out, "For the latest blessed version, the OpenAPI document generated from the current code is wire-compatible but not bytewise identical to the blessed document. This implies one or more trivial changes such as type renames or documentation updates. To proceed, bump the API version in the `api_versions!` macro; unless you're introducing other changes, there's no need to make changes to any endpoints.");
            },
            Problem::LockstepMissingLocal { .. } => {
                push_str_chars(&mut out, "No local OpenAPI document was found for this lockstep API.  This is only expected if you're adding a new lockstep API.  This tool can generate the file for you.");
            },
            Problem::LockstepStale { generated, .. } => {
                push_str_chars(&mut out, "For this lockstep API, OpenAPI document generated from the current code does not match the local file: ");
                let p = generated.path_text();
                push_string(&mut out, &str_debug_call(p.as_str()));
                push_str_chars(&mut out, ".  This tool can update the local file for you.");
            },
            Problem::LocalVersionMissingLocal { .. } => {
                push_str_chars(&mut out, "No OpenAPI document was found for this locally-added API version.  This is normal if you have added or changed this API version.  This tool can generate the file for you.");
            },
            Problem::LocalVersionExtra { spec_file_names } => {
                push_str_chars(&mut out, "Extra (incorrect) OpenAPI documents were found for locally-added version: ");
                let list = DisplayableVec(copy_names(spec_file_names));
                push_string(&mut out, &list.to_string());
                push_str_chars(&mut out, ".  This tool can remove the files for you.");
            },
            Problem::LocalVersionStale { spec_files, .. } => {
                push_str_chars(&mut out, "For this locally-added version, the OpenAPI document generated from the current code does not match the local file: ");
                let list = DisplayableVec(copy_file_names(spec_files));
                push_string(&mut out, &list.to_string());
                push_str_chars(&mut out, ". This tool can update the local file(s) for you.");
            },
            Problem::GeneratedSourceMissing { .. } => {
                push_str_chars(&mut out, "No generated OpenAPI document was found for this API. When using --generated-from-dir, the specified directory must contain documents for all configured APIs.");
            },
            Problem::GeneratedValidationError { api_ident, version, .. } => {
                push_str_chars(&mut out, "Generated OpenAPI document for API ");
                push_string(&mut out, &str_debug_call(api_ident.as_str()));
                push_str_chars(&mut out, " version ");
                version.push_text(&mut out);
                push_str_chars(&mut out, " is not valid");
            },
            Problem::ExtraFileStale { api_ident, path, .. } => {
                push_str_chars(&mut out, "Additional validated file associated with API ");
                push_string(&mut out, &str_debug_call(api_ident.as_str()));
                push_str_chars(&mut out, " is stale: ");
                push_string(&mut out, path);
            },
            Problem::LatestLinkMissing { api_ident, .. } => {
                push_str_chars(&mut out, "\"Latest\" symlink for versioned API ");
                push_string(&mut out, &str_debug_call(api_ident.as_str()));
                push_str_chars(&mut out, " is missing");
            },
            Problem::LatestLinkStale { api_ident, found, link } => {
                push_str_chars(&mut out, "\"Latest\" symlink for versioned API ");
                push_string(&mut out, &str_debug_call(api_ident.as_str()));
                push_str_chars(&mut out, " is stale: points to ");
                push_string(&mut out, &found.basename());
                push_str_chars(&mut out, ", but should be ");
                push_string(&mut out, &link.basename());
            },
            Problem::BlessedVersionShouldBeGitStub { .. } => {
                push_str_chars(&mut out, "Blessed non-latest version is stored as a full JSON file. This can be converted to a Git stub. This tool can perform the conversion for you.");
            },
            Problem::GitStubShouldBeJson { .. } => {
                push_str_chars(&mut out, "Blessed version is stored as a Git stub, but should be stored as JSON. This tool can perform the conversion for you.");
            },
            Problem::BlessedVersionCorruptedLocal { .. } => {
                push_str_chars(&mut out, "Local file for this blessed version is corrupted (possibly due to merge conflict markers). This tool can regenerate the file from the blessed version for you.");
            },
            Problem::DuplicateLocalFile { .. } => {
                push_str_chars(&mut out, "Duplicate local file found: both JSON and Git stub versions exist for this API version. This tool can remove the redundant file for you.");
            },
            Problem::GitStubCommitStale { .. } => {
                push_str_chars(&mut out, "Git stub has an outdated commit reference that is no longer an ancestor of the merge base. This can happen after a rebase or force-push. This tool can update the Git stub for you.");
            },
            Problem::GitStubFirstCommitUnknown { .. } => {
                push_str_chars(&mut out, "The first commit for this blessed version could not be determined. This may indicate a corrupted repository or other VCS-related issue. Git stub storage requires complete VCS history access");
            },
        }
        assert(out@ =~= problem_message(*self));
        string_from_chars(out.as_slice())
    }
}

} // verus!
