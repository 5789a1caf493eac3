//! Request checks and responses of the mesh service's export operation.
//!
//! Output paths are read with `/` as the separator, as on Unix: a path is
//! absolute when it starts with `/`, and a `..` segment is a parent-directory
//! component.

use vstd::prelude::*;
use crate::stl::MeshData;

verus! {

/// Mesh export formats, numbered as on the wire.
#[derive(Debug, Clone, Copy, PartialEq, Eq, Structural)]
pub enum MeshExportFormat {
    Unspecified,
    Stl,
    Obj,
    Ply,
}

/// The wire number of each format.
pub open spec fn format_number(f: MeshExportFormat) -> i32 {
    match f {
        MeshExportFormat::Unspecified => 0,
        MeshExportFormat::Stl => 1,
        MeshExportFormat::Obj => 2,
        MeshExportFormat::Ply => 3,
    }
}

/// The format with a given wire number, if any.
pub open spec fn format_of_number(raw: i32) -> Option<MeshExportFormat> {
    if raw == 0 {
        Some(MeshExportFormat::Unspecified)
    } else if raw == 1 {
        Some(MeshExportFormat::Stl)
    } else if raw == 2 {
        Some(MeshExportFormat::Obj)
    } else if raw == 3 {
        Some(MeshExportFormat::Ply)
    } else {
        None
    }
}

/// The format an export request is served in: unknown and unspecified
/// numbers fall back to STL.
pub open spec fn spec_resolve_format(raw: i32) -> MeshExportFormat {
    match format_of_number(raw) {
        Some(MeshExportFormat::Unspecified) | None => MeshExportFormat::Stl,
        Some(f) => f,
    }
}

impl MeshExportFormat {
    /// The format with wire number `raw`, if any.
    pub fn from_i32(raw: i32) -> (r: Option<MeshExportFormat>)
        ensures
            r == format_of_number(raw),
    {
        if raw == 0 {
            Some(MeshExportFormat::Unspecified)
        } else if raw == 1 {
            Some(MeshExportFormat::Stl)
        } else if raw == 2 {
            Some(MeshExportFormat::Obj)
        } else if raw == 3 {
            Some(MeshExportFormat::Ply)
        } else {
            None
        }
    }

    /// The wire number of this format.
    pub fn as_i32(&self) -> (r: i32)
        ensures
            r == format_number(*self),
    {
        match self {
            MeshExportFormat::Unspecified => 0,
            MeshExportFormat::Stl => 1,
            MeshExportFormat::Obj => 2,
            MeshExportFormat::Ply => 3,
        }
    }
}

/// Resolves a requested format number; unspecified or unknown numbers
/// collapse to STL.
pub fn resolve_format(raw: i32) -> (r: MeshExportFormat)
    ensures
        r == spec_resolve_format(raw),
        r != MeshExportFormat::Unspecified,
{
    match MeshExportFormat::from_i32(raw) {
        Some(MeshExportFormat::Unspecified) | None => MeshExportFormat::Stl,
        Some(fmt) => fmt,
    }
}

/// Resolving is idempotent: a resolved format resolves to itself.
pub proof fn lemma_resolve_format_idempotent(raw: i32)
    ensures
        spec_resolve_format(format_number(spec_resolve_format(raw))) == spec_resolve_format(raw),
{
}

/// Reply to an export request.
pub struct ExportMeshResponse {
    pub success: bool,
    pub error_message: String,
    pub bytes_written: u64,
    pub format_used: i32,
}

/// A failed export reply carrying `message` and the format that was used.
pub fn response_err(message: &str, format: MeshExportFormat) -> (r: ExportMeshResponse)
    ensures
        !r.success,
        r.error_message@ == message@,
        r.bytes_written == 0,
        r.format_used == format_number(format),
{
    ExportMeshResponse {
        success: false,
        error_message: message.to_string(),
        bytes_written: 0,
        format_used: format.as_i32(),
    }
}

/// A successful export reply.
pub fn response_ok(bytes_written: u64, format: MeshExportFormat) -> (r: ExportMeshResponse)
    ensures
        r.success,
        r.error_message@ == Seq::<char>::empty(),
        r.bytes_written == bytes_written,
        r.format_used == format_number(format),
{
    ExportMeshResponse {
        success: true,
        error_message: String::new(),
        bytes_written,
        format_used: format.as_i32(),
    }
}

/// The path starts at the root.
pub open spec fn is_absolute_path(p: Seq<char>) -> bool {
    p.len() > 0 && p[0] == '/'
}

/// A `..` segment starts at position `i` of the path.
pub open spec fn parent_segment_at(p: Seq<char>, i: int) -> bool {
    &&& 0 <= i
    &&& i + 2 <= p.len()
    &&& p[i] == '.'
    &&& p[i + 1] == '.'
    &&& (i == 0 || p[i - 1] == '/')
    &&& (i + 2 == p.len() || p[i + 2] == '/')
}

/// The path has a `..` segment somewhere.
pub open spec fn has_parent_segment(p: Seq<char>) -> bool {
    exists|i: int| parent_segment_at(p, i)
}

/// Path hygiene for export targets: absolute, with no `..` segment.
pub open spec fn spec_is_safe_path(p: Seq<char>) -> bool {
    is_absolute_path(p) && !has_parent_segment(p)
}

/// Path hygiene for export targets: the path must be absolute and must not
/// contain a `..` component.
pub fn is_safe_path(path: &str) -> (r: bool)
    ensures
        r == spec_is_safe_path(path@),
{
    let n = path.unicode_len();
    if n == 0 || path.get_char(0) != '/' {
        return false;
    }
    let mut i: usize = 0;
    while i + 1 < n
        invariant
            n == path@.len(),
            i < n,
            forall|j: int| 0 <= j < i ==> !parent_segment_at(path@, j),
        decreases n - i,
    {
        let c0 = path.get_char(i);
        let c1 = path.get_char(i + 1);
        if c0 == '.' && c1 == '.' {
            let starts = i == 0 || path.get_char(i - 1) == '/';
            let ends = i + 2 == n || path.get_char(i + 2) == '/';
            if starts && ends {
                assert(parent_segment_at(path@, i as int));
                return false;
            }
        }
        i = i + 1;
    }
    assert(!has_parent_segment(path@)) by {
        assert forall|j: int| !parent_segment_at(path@, j) by {
            if j >= i {
                assert(!(j + 2 <= path@.len()));
            }
        }
    }
    true
}

/// An export request: the mesh, where to write it, and the format number.
pub struct ExportMeshRequest {
    pub mesh: Option<MeshData>,
    pub output_path: String,
    pub format: i32,
}

/// The mesh is present with a non-empty, whole number of vertex and face
/// triples.
pub open spec fn mesh_is_exportable(mesh: Option<MeshData>) -> bool {
    match mesh {
        Some(m) => m.vertices@.len() > 0 && m.vertices@.len() % 3 == 0 && m.faces@.len() > 0
            && m.faces@.len() % 3 == 0,
        None => false,
    }
}

/// What to do with an export request.
pub enum ExportPlan {
    /// Answer at once with this reply.
    Reply(ExportMeshResponse),
    /// Encode the mesh as binary STL and write it to the output path.
    WriteStl,
}

/// The message a refused export request is answered with, or `None` when the
/// request is to be carried out. Checks run in order: empty path, unsafe
/// path, missing or malformed mesh, then formats without an encoder.
pub open spec fn export_refusal(req: ExportMeshRequest) -> Option<Seq<char>> {
    if req.output_path@.len() == 0 {
        Some("output_path is empty"@)
    } else if !spec_is_safe_path(req.output_path@) {
        Some("permission denied"@)
    } else if !mesh_is_exportable(req.mesh) {
        Some("mesh is empty"@)
    } else if spec_resolve_format(req.format) != MeshExportFormat::Stl {
        Some("format not implemented"@)
    } else {
        None
    }
}

/// Format law: only STL has an encoder. A request is carried out only when
/// its format number is 0 (unspecified), 1 (STL) or a number that names no
/// format; a request for OBJ (2) or PLY (3) whose path and mesh pass the
/// checks is answered "format not implemented", and the path checks come
/// before the mesh and format checks.
pub proof fn lemma_only_stl_is_written(req: ExportMeshRequest)
    ensures
        export_refusal(req) is None ==> req.format != 2 && req.format != 3,
        export_refusal(req) is None ==> req.output_path@.len() > 0 && spec_is_safe_path(
            req.output_path@,
        ) && mesh_is_exportable(req.mesh),
        (req.format == 2 || req.format == 3) && req.output_path@.len() > 0 && spec_is_safe_path(
            req.output_path@,
        ) && mesh_is_exportable(req.mesh) ==> export_refusal(req) == Some(
            "format not implemented"@,
        ),
        (req.format == 0 || req.format == 1 || req.format < 0 || req.format > 3)
            && req.output_path@.len() > 0 && spec_is_safe_path(req.output_path@)
            && mesh_is_exportable(req.mesh) ==> export_refusal(req) is None,
        req.output_path@.len() == 0 ==> export_refusal(req) == Some("output_path is empty"@),
        req.output_path@.len() > 0 && !spec_is_safe_path(req.output_path@) ==> export_refusal(req)
            == Some("permission denied"@),
{
}

/// The mesh service. Its remote operations are served over gRPC by the
/// host; the checks they make are methods here.
pub struct MeshServiceImpl;

impl MeshServiceImpl {

/// Decides how an export request is served. Every reply it gives is a
/// failure that names the resolved format.
pub fn export_mesh(&self, req: &ExportMeshRequest) -> (r: ExportPlan)
    ensures
        match r {
            ExportPlan::WriteStl => export_refusal(*req) is None && req.format != 2 && req.format
                != 3,
            ExportPlan::Reply(resp) => {
                &&& export_refusal(*req) matches Some(msg)
                &&& resp.error_message@ == msg
                &&& !resp.success
                &&& resp.bytes_written == 0
                &&& resp.format_used == format_number(spec_resolve_format(req.format))
            },
        },
{
    let format = resolve_format(req.format);
    if req.output_path.as_str().unicode_len() == 0 {
        proof {
            reveal_strlit("output_path is empty");
        }
        return ExportPlan::Reply(response_err("output_path is empty", format));
    }
    if !is_safe_path(req.output_path.as_str()) {
        return ExportPlan::Reply(response_err("permission denied", format));
    }
    let exportable = match &req.mesh {
        Some(m) => m.vertices.len() > 0 && m.vertices.len() % 3 == 0 && m.faces.len() > 0
            && m.faces.len() % 3 == 0,
        None => false,
    };
    if !exportable {
        return ExportPlan::Reply(response_err("mesh is empty", format));
    }
    proof {
        lemma_only_stl_is_written(*req);
    }
    match format {
        MeshExportFormat::Stl => ExportPlan::WriteStl,
        _ => ExportPlan::Reply(response_err("format not implemented", format)),
    }
}

}

/// How writing the encoded file went.
pub enum ExportWriteOutcome {
    /// The file could not be created because permission was denied.
    CreateDenied,
    /// The file could not be created for another reason.
    CreateFailed,
    /// Encoding or writing failed after the file was created.
    WriteFailed,
    /// This many bytes were written.
    Written(u64),
}

/// The reply to an STL export once the write has been attempted.
pub fn finish_export(outcome: ExportWriteOutcome, format: MeshExportFormat) -> (r:
    ExportMeshResponse)
    ensures
        r.format_used == format_number(format),
        match outcome {
            ExportWriteOutcome::Written(n) => r.success && r.bytes_written == n
                && r.error_message@.len() == 0,
            ExportWriteOutcome::CreateDenied => !r.success && r.bytes_written == 0
                && r.error_message@ == "permission denied"@,
            _ => !r.success && r.bytes_written == 0 && r.error_message@ == "write failed"@,
        },
{
    match outcome {
        ExportWriteOutcome::Written(n) => response_ok(n, format),
        ExportWriteOutcome::CreateDenied => response_err("permission denied", format),
        _ => response_err("write failed", format),
    }
}

} // verus!
