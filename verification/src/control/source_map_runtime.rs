//! Request checks and error codes of the project source-map route.
use vstd::prelude::*;
use crate::paths::{normalize_relative, normalized_relative, path_starts_with, relative_display, relative_display_of, starts_with_path};
use crate::text::{byte_len, byte_len_within, chars_of, string_of};

verus! {

pub const MAX_REQUEST_PATH_BYTES: usize = 1024;

#[derive(Debug, Clone, Copy, PartialEq, Eq)]
pub enum ProjectSourceMapError {
    Unauthorized,
    SessionNotFound,
    ProjectRootUnavailable,
    InvalidGeneratedFile,
    GeneratedFileUnavailable,
    SourceMapUnavailable,
    SourceMapTooLarge,
    InvalidSourceMap,
    GeneratedPositionOutOfRange,
    UnmappedGeneratedPosition,
    SourceReferenceUnsupported,
    SourceOutsideProject,
    SourceUnavailable,
}

impl ProjectSourceMapError {
    pub open spec fn spec_code(self) -> Seq<char> {
        match self {
            ProjectSourceMapError::Unauthorized => "unauthorized"@,
            ProjectSourceMapError::SessionNotFound => "session_not_found"@,
            ProjectSourceMapError::ProjectRootUnavailable => "project_root_unavailable"@,
            ProjectSourceMapError::InvalidGeneratedFile => "invalid_generated_file"@,
            ProjectSourceMapError::GeneratedFileUnavailable => "generated_file_unavailable"@,
            ProjectSourceMapError::SourceMapUnavailable => "source_map_unavailable"@,
            ProjectSourceMapError::SourceMapTooLarge => "source_map_too_large"@,
            ProjectSourceMapError::InvalidSourceMap => "invalid_source_map"@,
            ProjectSourceMapError::GeneratedPositionOutOfRange => "generated_position_out_of_range"@,
            ProjectSourceMapError::UnmappedGeneratedPosition => "unmapped_generated_position"@,
            ProjectSourceMapError::SourceReferenceUnsupported => "source_reference_unsupported"@,
            ProjectSourceMapError::SourceOutsideProject => "source_outside_project"@,
            ProjectSourceMapError::SourceUnavailable => "source_unavailable"@,
        }
    }

    pub open spec fn spec_status(self) -> u16 {
        match self {
            ProjectSourceMapError::Unauthorized => 401,
            ProjectSourceMapError::SessionNotFound => 404,
            ProjectSourceMapError::ProjectRootUnavailable => 409,
            ProjectSourceMapError::GeneratedFileUnavailable => 404,
            ProjectSourceMapError::SourceMapUnavailable => 404,
            ProjectSourceMapError::SourceUnavailable => 404,
            ProjectSourceMapError::SourceOutsideProject => 403,
            ProjectSourceMapError::InvalidGeneratedFile => 422,
            ProjectSourceMapError::SourceMapTooLarge => 422,
            ProjectSourceMapError::InvalidSourceMap => 422,
            ProjectSourceMapError::GeneratedPositionOutOfRange => 422,
            ProjectSourceMapError::UnmappedGeneratedPosition => 422,
            ProjectSourceMapError::SourceReferenceUnsupported => 422,
        }
    }

    /// The HTTP status sent with the error.
    pub fn status(self) -> (r: u16)
        ensures
            r == self.spec_status(),
    {
        match self {
            ProjectSourceMapError::Unauthorized => 401,
            ProjectSourceMapError::SessionNotFound => 404,
            ProjectSourceMapError::ProjectRootUnavailable => 409,
            ProjectSourceMapError::GeneratedFileUnavailable
            | ProjectSourceMapError::SourceMapUnavailable
            | ProjectSourceMapError::SourceUnavailable => 404,
            ProjectSourceMapError::SourceOutsideProject => 403,
            ProjectSourceMapError::InvalidGeneratedFile
            | ProjectSourceMapError::SourceMapTooLarge
            | ProjectSourceMapError::InvalidSourceMap
            | ProjectSourceMapError::GeneratedPositionOutOfRange
            | ProjectSourceMapError::UnmappedGeneratedPosition
            | ProjectSourceMapError::SourceReferenceUnsupported => 422,
        }
    }

    /// The error code sent to clients.
    pub fn code(self) -> (r: &'static str)
        ensures
            r@ == self.spec_code(),
    {
        match self {
            ProjectSourceMapError::Unauthorized => "unauthorized",
            ProjectSourceMapError::SessionNotFound => "session_not_found",
            ProjectSourceMapError::ProjectRootUnavailable => "project_root_unavailable",
            ProjectSourceMapError::InvalidGeneratedFile => "invalid_generated_file",
            ProjectSourceMapError::GeneratedFileUnavailable => "generated_file_unavailable",
            ProjectSourceMapError::SourceMapUnavailable => "source_map_unavailable",
            ProjectSourceMapError::SourceMapTooLarge => "source_map_too_large",
            ProjectSourceMapError::InvalidSourceMap => "invalid_source_map",
            ProjectSourceMapError::GeneratedPositionOutOfRange => "generated_position_out_of_range",
            ProjectSourceMapError::UnmappedGeneratedPosition => "unmapped_generated_position",
            ProjectSourceMapError::SourceReferenceUnsupported => "source_reference_unsupported",
            ProjectSourceMapError::SourceOutsideProject => "source_outside_project",
            ProjectSourceMapError::SourceUnavailable => "source_unavailable",
        }
    }
}

/// A caller-supplied project path: non-empty, at most 1024 bytes, relative and without `..`.
pub open spec fn spec_bounded_project_relative_path(v: Seq<char>) -> Option<Seq<char>> {
    if v.len() == 0 || byte_len(v) > 1024 {
        None
    } else {
        normalized_relative(v)
    }
}

pub fn bounded_project_relative_path(value: &str) -> (r: Option<String>)
    ensures
        match r {
            Some(n) => spec_bounded_project_relative_path(value@) == Some(n@),
            None => spec_bounded_project_relative_path(value@) is None,
        },
{
    let v = chars_of(value);
    proof {
        assert(v@.subrange(0, v@.len() as int) == v@);
    }
    if v.len() == 0 || byte_len_within(v.as_slice(), 0, v.len(), MAX_REQUEST_PATH_BYTES).is_none() {
        return None;
    }
    match normalize_relative(v.as_slice()) {
        Some(n) => {
            let s = string_of(n.as_slice(), 0, n.len());
            proof {
                assert(n@.subrange(0, n@.len() as int) == n@);
            }
            Some(s)
        },
        None => None,
    }
}

/// `candidate` lies under `root`, or the source is outside the project.
pub fn ensure_contained(root: &str, candidate: &str) -> (r: Result<(), ProjectSourceMapError>)
    ensures
        r is Ok <==> path_starts_with(candidate@, root@),
        r is Err ==> r == Err::<(), ProjectSourceMapError>(ProjectSourceMapError::SourceOutsideProject),
{
    let rv = chars_of(root);
    let cv = chars_of(candidate);
    if starts_with_path(cv.as_slice(), rv.as_slice()) {
        Ok(())
    } else {
        Err(ProjectSourceMapError::SourceOutsideProject)
    }
}

pub open spec fn spec_project_relative_display(path: Seq<char>, root: Seq<char>) -> Option<Seq<char>> {
    match relative_display(path, root) {
        None => None,
        Some(v) => if v.len() == 0 || byte_len(v) > 1024 {
            None
        } else {
            Some(v)
        },
    }
}

pub fn project_relative_display(root: &str, path: &str) -> (r: Option<String>)
    ensures
        match r {
            Some(n) => spec_project_relative_display(path@, root@) == Some(n@),
            None => spec_project_relative_display(path@, root@) is None,
        },
{
    let rv = chars_of(root);
    let pv = chars_of(path);
    let value = match relative_display_of(rv.as_slice(), pv.as_slice()) {
        Some(v) => v,
        None => return None,
    };
    proof {
        assert(value@.subrange(0, value@.len() as int) == value@);
    }
    if value.len() == 0 || byte_len_within(value.as_slice(), 0, value.len(), MAX_REQUEST_PATH_BYTES).is_none() {
        return None;
    }
    Some(string_of(value.as_slice(), 0, value.len()))
}

} // verus!
