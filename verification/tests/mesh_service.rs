use medusa_threed::mesh_service::{
    finish_export, is_safe_path, resolve_format, ExportMeshRequest, ExportPlan,
    ExportWriteOutcome, MeshExportFormat, MeshServiceImpl,
};
use medusa_threed::stl::MeshData;

#[test]
fn relative_path_rejected() {
    assert!(!is_safe_path("relative/path.stl"));
}

#[test]
fn parent_dir_escape_rejected() {
    assert!(!is_safe_path("/tmp/../etc/passwd"));
}

#[test]
fn plain_absolute_path_accepted() {
    assert!(is_safe_path("/tmp/output.stl"));
}

#[test]
fn resolve_format_collapses_unspecified_to_stl() {
    assert_eq!(resolve_format(0), MeshExportFormat::Stl);
    assert_eq!(resolve_format(1), MeshExportFormat::Stl);
    assert_eq!(resolve_format(2), MeshExportFormat::Obj);
    assert_eq!(resolve_format(3), MeshExportFormat::Ply);
}

#[test]
fn unknown_format_number_falls_back_to_stl() {
    assert_eq!(resolve_format(-4), MeshExportFormat::Stl);
    assert_eq!(resolve_format(99), MeshExportFormat::Stl);
}

#[test]
fn dot_segments_inside_names_are_allowed() {
    assert!(is_safe_path("/tmp/a..b/x.stl"));
    assert!(is_safe_path("/tmp/.../x.stl"));
    assert!(!is_safe_path("/tmp/.."));
    assert!(!is_safe_path("/../x"));
    assert!(!is_safe_path(""));
}

fn triangle() -> MeshData {
    MeshData {
        vertices: [0.0f32, 0.0, 0.0, 1.0, 0.0, 0.0, 0.0, 1.0, 0.0]
            .iter()
            .map(|v| v.to_bits())
            .collect(),
        faces: vec![0, 1, 2],
        tex_coords: vec![],
    }
}

fn reply_message(plan: ExportPlan) -> (String, i32) {
    match plan {
        ExportPlan::Reply(r) => {
            assert!(!r.success);
            assert_eq!(r.bytes_written, 0);
            (r.error_message, r.format_used)
        }
        ExportPlan::WriteStl => panic!("expected a reply"),
    }
}

#[test]
fn export_requests_are_checked_in_order() {
    let svc = MeshServiceImpl;
    let req = |mesh: Option<MeshData>, path: &str, format: i32| ExportMeshRequest {
        mesh,
        output_path: path.to_string(),
        format,
    };
    assert_eq!(
        reply_message(svc.export_mesh(&req(None, "", 3))),
        ("output_path is empty".to_string(), 3)
    );
    assert_eq!(
        reply_message(svc.export_mesh(&req(Some(triangle()), "rel.stl", 0))),
        ("permission denied".to_string(), 1)
    );
    assert_eq!(
        reply_message(svc.export_mesh(&req(None, "/tmp/x.stl", 1))),
        ("mesh is empty".to_string(), 1)
    );
    let mut bad = triangle();
    bad.faces.push(0);
    assert_eq!(
        reply_message(svc.export_mesh(&req(Some(bad), "/tmp/x.stl", 1))),
        ("mesh is empty".to_string(), 1)
    );
    assert_eq!(
        reply_message(svc.export_mesh(&req(Some(triangle()), "/tmp/x.stl", 2))),
        ("format not implemented".to_string(), 2)
    );
    assert!(matches!(
        svc.export_mesh(&req(Some(triangle()), "/tmp/x.stl", 7)),
        ExportPlan::WriteStl
    ));
}

#[test]
fn export_outcomes_become_replies() {
    let ok = finish_export(ExportWriteOutcome::Written(134), MeshExportFormat::Stl);
    assert!(ok.success);
    assert_eq!(ok.bytes_written, 134);
    assert_eq!(ok.error_message, "");
    assert_eq!(ok.format_used, 1);
    let denied = finish_export(ExportWriteOutcome::CreateDenied, MeshExportFormat::Stl);
    assert_eq!(denied.error_message, "permission denied");
    let failed = finish_export(ExportWriteOutcome::WriteFailed, MeshExportFormat::Stl);
    assert_eq!(failed.error_message, "write failed");
    assert!(!failed.success);
}

#[test]
fn resolving_a_resolved_format_keeps_it() {
    for raw in [-1, 0, 1, 2, 3, 4, 1000] {
        let f = resolve_format(raw);
        assert_eq!(resolve_format(f.as_i32()), f);
        assert_ne!(f, MeshExportFormat::Unspecified);
    }
}
