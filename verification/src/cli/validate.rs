//! Checking a plugin before it is published.

use vstd::prelude::*;
use vstd::string::StringExecFns;

use crate::json::{json_document, json_member, member_of, parse_json, Field, FieldView};
use crate::path::{has_substring, str_contains};
use crate::project::{is_source_extension, spec_is_source_extension, texts_view, SourceFile};

verus! {

/// What the structure of a project lacks.
#[derive(Debug, Clone, Copy, PartialEq, Eq, Structural)]
pub enum StructureError {
    MissingSrc,
    MissingMeta,
    MissingConfig,
}

impl StructureError {
    /// The error in words.
    pub open spec fn spec_message(&self) -> Seq<char> {
        match self {
            StructureError::MissingSrc => "Missing 'src' directory"@,
            StructureError::MissingMeta => "Missing 'plugin.meta.json' file"@,
            StructureError::MissingConfig => "Missing 'fluxo.config.json' file"@,
        }
    }

    /// The error in words.
    pub fn message(&self) -> (text: String)
        ensures
            text@ == self.spec_message(),
    {
        match self {
            StructureError::MissingSrc => String::from_str("Missing 'src' directory"),
            StructureError::MissingMeta => String::from_str("Missing 'plugin.meta.json' file"),
            StructureError::MissingConfig => String::from_str("Missing 'fluxo.config.json' file"),
        }
    }
}

/// Why the metadata of a plugin is refused.
#[derive(Debug, Clone, Copy, PartialEq, Eq, Structural)]
pub enum MetadataError {
    /// The metadata is no JSON document.
    Malformed,
    /// The name is missing, is no string, or is empty.
    NameRequired,
    /// The version is missing.
    VersionRequired,
}

impl MetadataError {
    /// The error in words.
    pub open spec fn spec_message(&self) -> Seq<char> {
        match self {
            MetadataError::Malformed => "Plugin metadata is not valid JSON"@,
            MetadataError::NameRequired => "Plugin name is required"@,
            MetadataError::VersionRequired => "Plugin version is required"@,
        }
    }

    /// The error in words.
    pub fn message(&self) -> (text: String)
        ensures
            text@ == self.spec_message(),
    {
        match self {
            MetadataError::Malformed => String::from_str("Plugin metadata is not valid JSON"),
            MetadataError::NameRequired => String::from_str("Plugin name is required"),
            MetadataError::VersionRequired => String::from_str("Plugin version is required"),
        }
    }
}

/// The members of the metadata of a plugin that a check looks at.
#[derive(Debug, Clone, PartialEq, Eq)]
pub struct PluginMetadata {
    pub name: Field,
    pub description: Field,
    pub version: Field,
}

/// Whether a member is a string that is not empty.
pub open spec fn is_filled(field: FieldView) -> bool {
    field matches FieldView::Text(text) && text.len() > 0
}

/// Whether a version is a string without a dot.
pub open spec fn lacks_dot(version: FieldView) -> bool {
    version matches FieldView::Text(text) && !has_substring(text, "."@)
}

/// The warning for a description that is missing or empty.
pub open spec fn description_warning() -> Seq<char> {
    "Plugin description is empty"@
}

/// The warning for a version without a dot.
pub open spec fn version_warning() -> Seq<char> {
    "Version should follow semantic versioning (e.g., 1.0.0)"@
}

/// What a check of metadata comes to: refused without a name or a version; else the
/// warnings, first for the description, then for the version.
pub open spec fn spec_validate_metadata(
    name: FieldView,
    description: FieldView,
    version: FieldView,
) -> Result<Seq<Seq<char>>, MetadataError> {
    if !is_filled(name) {
        Err(MetadataError::NameRequired)
    } else if version is Missing {
        Err(MetadataError::VersionRequired)
    } else {
        let first: Seq<Seq<char>> = if is_filled(description) {
            Seq::empty()
        } else {
            seq![description_warning()]
        };
        Ok(
            if lacks_dot(version) {
                first.push(version_warning())
            } else {
                first
            },
        )
    }
}

/// What a check of the text of a metadata file comes to.
pub open spec fn spec_validate_metadata_text(text: Seq<char>) -> Result<
    Seq<Seq<char>>,
    MetadataError,
> {
    match json_document(text) {
        Some(members) => spec_validate_metadata(
            member_of(members, "name"@),
            member_of(members, "description"@),
            member_of(members, "version"@),
        ),
        None => Err(MetadataError::Malformed),
    }
}

/// Whether a result of a check holds what `expected` says.
pub open spec fn warnings_are(
    result: Result<Vec<String>, MetadataError>,
    expected: Result<Seq<Seq<char>>, MetadataError>,
) -> bool {
    match result {
        Ok(warnings) => expected == Ok::<Seq<Seq<char>>, MetadataError>(texts_view(warnings@)),
        Err(error) => expected == Err::<Seq<Seq<char>>, MetadataError>(error),
    }
}

/// Whether a member is a string that is not empty.
pub fn field_is_filled(field: &Field) -> (filled: bool)
    ensures
        filled == is_filled(field@),
{
    match field {
        Field::Text(text) => !text.as_str().is_empty(),
        _ => false,
    }
}

/// The members of the metadata that `text` spells, if it spells a JSON document.
pub fn parse_metadata(text: &str) -> (metadata: Option<PluginMetadata>)
    ensures
        match metadata {
            Some(found) => json_document(text@) matches Some(members) && found.name@ == member_of(
                members,
                "name"@,
            ) && found.description@ == member_of(members, "description"@) && found.version@
                == member_of(members, "version"@),
            None => json_document(text@) is None,
        },
{
    match parse_json(text) {
        Some(value) => Some(
            PluginMetadata {
                name: json_member(&value, "name"),
                description: json_member(&value, "description"),
                version: json_member(&value, "version"),
            },
        ),
        None => None,
    }
}

/// The names that a plugin should not use.
pub open spec fn spec_banned_apis() -> Seq<Seq<char>> {
    seq!["loadstring"@, "getfenv"@, "setfenv"@, "debug.getupvalue"@]
}

/// The warning for a banned name found in a file.
pub open spec fn banned_api_warning(api: Seq<char>, path: Seq<char>) -> Seq<char> {
    "Potentially banned API '"@ + api + "' found in "@ + path
}

/// The warnings for the first `count` banned names in one file.
pub open spec fn file_warnings(file: SourceFile, count: int) -> Seq<Seq<char>>
    decreases count,
{
    if count <= 0 {
        Seq::empty()
    } else {
        let before = file_warnings(file, count - 1);
        let api = spec_banned_apis()[count - 1];
        if has_substring(file.content@, api) {
            before.push(banned_api_warning(api, file.path@))
        } else {
            before
        }
    }
}

/// The warnings for the banned names in `files`: for each source file in order, one warning
/// for each banned name that it holds.
pub open spec fn banned_api_warnings(files: Seq<SourceFile>) -> Seq<Seq<char>>
    decreases files.len(),
{
    if files.len() == 0 {
        Seq::empty()
    } else {
        let before = banned_api_warnings(files.drop_last());
        let file = files.last();
        if spec_is_source_extension(file.extension@) {
            before + file_warnings(file, 4)
        } else {
            before
        }
    }
}

/// The names that a plugin should not use.
pub fn banned_apis() -> (apis: Vec<&'static str>)
    ensures
        apis@.len() == 4,
        forall|i: int| 0 <= i < 4 ==> (#[trigger] apis@[i])@ == spec_banned_apis()[i],
{
    let mut apis: Vec<&'static str> = Vec::new();
    apis.push("loadstring");
    apis.push("getfenv");
    apis.push("setfenv");
    apis.push("debug.getupvalue");
    apis
}

/// What the checks of a plugin found.
#[derive(Debug, Clone, PartialEq, Eq)]
pub struct Findings {
    /// The checks that failed, each with its reason.
    pub errors: Vec<String>,
    /// The warnings of the checks that passed.
    pub warnings: Vec<String>,
}

impl Findings {
    /// Whether no check failed.
    pub fn passed(&self) -> (ok: bool)
        ensures
            ok == (self.errors@.len() == 0),
    {
        self.errors.len() == 0
    }
}

/// The error of a check that failed: what the check is called, and the reason.
pub open spec fn failure(check: Seq<char>, reason: Seq<char>) -> Seq<char> {
    check + " validation failed: "@ + reason
}

/// The errors of one check: its failure, where it was made and failed.
pub open spec fn check_errors<T>(skip: bool, check: Seq<char>, result: Result<T, String>) -> Seq<
    Seq<char>,
> {
    match result {
        Err(reason) => if skip {
            Seq::empty()
        } else {
            seq![failure(check, reason@)]
        },
        Ok(_) => Seq::empty(),
    }
}

/// The warnings of one check: what it returned, where it was made and passed.
pub open spec fn check_warnings(skip: bool, result: Result<Vec<String>, String>) -> Seq<Seq<char>> {
    match result {
        Ok(warnings) => if skip {
            Seq::empty()
        } else {
            texts_view(warnings@)
        },
        Err(_) => Seq::empty(),
    }
}

/// The error of a check that failed.
fn failure_text(check: &str, reason: &str) -> (text: String)
    ensures
        text@ == failure(check@, reason@),
{
    let mut text = String::from_str(check);
    text.append(" validation failed: ");
    text.append(reason);
    text
}

/// The arguments of the command that checks a plugin.
#[derive(Debug, Clone, PartialEq, Eq)]
pub struct Validate {
    /// The path of the project.
    pub project: Option<String>,
    /// Whether to leave out the check of the metadata.
    pub skip_metadata: bool,
    /// Whether to leave out the check for banned names.
    pub skip_api_check: bool,
    /// Whether to leave out the check of the structure.
    pub skip_structure: bool,
    /// Whether to say more.
    pub verbose: bool,
}

impl Validate {
    /// Checks that a project has its source directory, its metadata file and its
    /// configuration file, and names the first that is missing.
    pub fn validate_structure(&self, has_src: bool, has_meta: bool, has_config: bool) -> (result:
        Result<(), StructureError>)
        ensures
            result == if !has_src {
                Err::<(), StructureError>(StructureError::MissingSrc)
            } else if !has_meta {
                Err(StructureError::MissingMeta)
            } else if !has_config {
                Err(StructureError::MissingConfig)
            } else {
                Ok(())
            },
    {
        if !has_src {
            return Err(StructureError::MissingSrc);
        }
        if !has_meta {
            return Err(StructureError::MissingMeta);
        }
        if !has_config {
            return Err(StructureError::MissingConfig);
        }
        Ok(())
    }

    /// Puts together what the three checks found: of each check that was not left out, the
    /// failure or the warnings, in the order structure, metadata, banned names.
    pub fn collect(
        &self,
        structure: Result<(), String>,
        metadata: Result<Vec<String>, String>,
        apis: Result<Vec<String>, String>,
    ) -> (findings: Findings)
        ensures
            texts_view(findings.errors@) == check_errors(
                self.skip_structure,
                "Structure"@,
                structure,
            ) + check_errors(self.skip_metadata, "Metadata"@, metadata) + check_errors(
                self.skip_api_check,
                "API"@,
                apis,
            ),
            texts_view(findings.warnings@) == check_warnings(self.skip_metadata, metadata)
                + check_warnings(self.skip_api_check, apis),
    {
        let mut errors: Vec<String> = Vec::new();
        let mut warnings: Vec<String> = Vec::new();
        if !self.skip_structure {
            match &structure {
                Err(reason) => {
                    errors.push(failure_text("Structure", reason.as_str()));
                },
                Ok(_) => {},
            }
        }
        assert(texts_view(errors@) =~= check_errors(self.skip_structure, "Structure"@, structure));
        let ghost first = texts_view(errors@);
        if !self.skip_metadata {
            match metadata {
                Ok(found) => {
                    let mut found = found;
                    warnings.append(&mut found);
                },
                Err(reason) => {
                    errors.push(failure_text("Metadata", reason.as_str()));
                },
            }
        }
        assert(texts_view(errors@) =~= first + check_errors(
            self.skip_metadata,
            "Metadata"@,
            metadata,
        ));
        assert(texts_view(warnings@) =~= check_warnings(self.skip_metadata, metadata));
        let ghost second = texts_view(errors@);
        let ghost warned = texts_view(warnings@);
        if !self.skip_api_check {
            match apis {
                Ok(found) => {
                    let mut found = found;
                    warnings.append(&mut found);
                },
                Err(reason) => {
                    errors.push(failure_text("API", reason.as_str()));
                },
            }
        }
        assert(texts_view(errors@) =~= second + check_errors(self.skip_api_check, "API"@, apis));
        assert(texts_view(warnings@) =~= warned + check_warnings(self.skip_api_check, apis));
        Findings { errors, warnings }
    }

    /// Checks the metadata of a plugin: it needs a name and a version; a missing
    /// description and a version without a dot get a warning each.
    pub fn validate_metadata(&self, metadata: &PluginMetadata) -> (result: Result<
        Vec<String>,
        MetadataError,
    >)
        ensures
            warnings_are(
                result,
                spec_validate_metadata(metadata.name@, metadata.description@, metadata.version@),
            ),
    {
        if !field_is_filled(&metadata.name) {
            return Err(MetadataError::NameRequired);
        }
        let mut warnings: Vec<String> = Vec::new();
        if !field_is_filled(&metadata.description) {
            warnings.push(String::from_str("Plugin description is empty"));
        }
        match &metadata.version {
            Field::Missing => {
                return Err(MetadataError::VersionRequired);
            },
            Field::Text(version) => {
                if !str_contains(version.as_str(), ".") {
                    warnings.push(
                        String::from_str("Version should follow semantic versioning (e.g., 1.0.0)"),
                    );
                }
            },
            Field::Other => {},
        }
        proof {
            let expected = spec_validate_metadata(
                metadata.name@,
                metadata.description@,
                metadata.version@,
            );
            assert(expected is Ok);
            assert(texts_view(warnings@) =~= expected->Ok_0);
        }
        Ok(warnings)
    }

    /// Checks the text of a metadata file: it has to be a JSON document, and its members
    /// have to pass [`Self::validate_metadata`].
    pub fn validate_metadata_text(&self, text: &str) -> (result: Result<Vec<String>, MetadataError>)
        ensures
            warnings_are(result, spec_validate_metadata_text(text@)),
    {
        match parse_metadata(text) {
            Some(metadata) => self.validate_metadata(&metadata),
            None => Err(MetadataError::Malformed),
        }
    }

    /// Looks for banned names in the source files of a project, and warns of each.
    pub fn check_banned_apis(&self, files: &Vec<SourceFile>) -> (warnings: Vec<String>)
        ensures
            texts_view(warnings@) == banned_api_warnings(files@),
    {
        let apis = banned_apis();
        let mut warnings: Vec<String> = Vec::new();
        let mut i: usize = 0;
        assert(files@.take(0) =~= Seq::empty());
        assert(texts_view(warnings@) =~= Seq::empty());
        while i < files.len()
            invariant
                i <= files.len(),
                apis@.len() == 4,
                forall|k: int| 0 <= k < 4 ==> (#[trigger] apis@[k])@ == spec_banned_apis()[k],
                texts_view(warnings@) == banned_api_warnings(files@.take(i as int)),
            decreases files.len() - i,
        {
            let file = &files[i];
            let ghost before = texts_view(warnings@);
            proof {
                assert(files@.take(i + 1).drop_last() =~= files@.take(i as int));
                assert(files@.take(i + 1).last() == files@[i as int]);
            }
            if is_source_extension(file.extension.as_str()) {
                let mut k: usize = 0;
                assert(before + file_warnings(*file, 0) =~= before);
                while k < 4
                    invariant
                        k <= 4,
                        apis@.len() == 4,
                        forall|j: int|
                            0 <= j < 4 ==> (#[trigger] apis@[j])@ == spec_banned_apis()[j],
                        texts_view(warnings@) == before + file_warnings(*file, k as int),
                    decreases 4 - k,
                {
                    let api = apis[k];
                    let ghost so_far = texts_view(warnings@);
                    if str_contains(file.content.as_str(), api) {
                        let mut warning = String::from_str("Potentially banned API '");
                        warning.append(api);
                        warning.append("' found in ");
                        warning.append(file.path.as_str());
                        assert(warning@ =~= banned_api_warning(api@, file.path@));
                        warnings.push(warning);
                        assert(texts_view(warnings@) =~= so_far.push(warning@));
                        assert(texts_view(warnings@) =~= before + file_warnings(*file, k + 1));
                    }
                    k += 1;
                }
            }
            i += 1;
        }
        assert(files@.take(files.len() as int) =~= files@);
        warnings
    }
}

} // verus!
