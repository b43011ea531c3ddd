use codegraph::solution::{
    directory_step, extension, file_kind, file_step, pick_in_directory, sln_project_path,
    tag_value, target_framework, DirectoryPick, DiscoverError, DiscoverStep, ProjectFileKind,
    SolutionLoader,
};

const SLN: &str = r#"
Microsoft Visual Studio Solution File, Format Version 12.00
Project("{9A19103F-16F7-4668-BE54-9A1E7A4F7556}") = "App", "src\App.csproj", "{11111111-1111-1111-1111-111111111111}"
EndProject
Project("{9A19103F-16F7-4668-BE54-9A1E7A4F7556}") = "Lib", "Lib\Lib.csproj", "{22222222-2222-2222-2222-222222222222}"
EndProject
Project("{2150E333-8FDC-42A3-9474-1A3956D46DE8}") = "Solution Items", "Solution Items", "{33333333-3333-3333-3333-333333333333}"
EndProject
Project("{8BC9CEB8-8B4A-11D0-8D11-00A0C91BC942}") = "Native", "Native\Native.vcxproj", "{44444444-4444-4444-4444-444444444444}"
EndProject
Global
EndGlobal
"#;

#[test]
fn sln_parsing_finds_csproj_projects_only() {
    let paths = SolutionLoader::new().solution_project_paths(SLN);
    assert_eq!(
        paths,
        vec!["src/App.csproj".to_string(), "Lib/Lib.csproj".to_string()],
        "expected the two .csproj entries (folders/vcxproj skipped)"
    );
}

#[test]
fn sln_without_csproj_is_an_error() {
    let loader = SolutionLoader::new();
    let paths = loader
        .solution_project_paths("Microsoft Visual Studio Solution File, Format Version 12.00\n");
    assert!(paths.is_empty());
    let err = loader.solution_projects("/tmp/Empty.sln", Vec::new()).expect_err("should fail");
    assert!(err.message().contains("no .csproj projects found"), "unexpected error: {}", err.message());
}

#[test]
fn target_framework_prefers_single_over_list() {
    assert_eq!(
        target_framework("<Project><PropertyGroup><TargetFramework>net10.0</TargetFramework></PropertyGroup></Project>").as_deref(),
        Some("net10.0")
    );
    assert_eq!(
        target_framework("<Project><PropertyGroup><TargetFrameworks>net8.0;net10.0</TargetFrameworks></PropertyGroup></Project>").as_deref(),
        Some("net8.0"),
        "multi-targeted takes the first entry"
    );
    assert_eq!(target_framework("<Project></Project>"), None);
    let loader = SolutionLoader::new();
    let missing = loader.describe_project("/tmp/Missing.csproj".to_string(), None);
    assert_eq!(missing.target_framework, None, "unreadable file degrades to None");
}

#[test]
fn directory_prefers_sln_over_csproj() {
    let entries = vec![
        ("/d/Only.csproj".to_string(), Some("Only.csproj".to_string())),
        ("/d/All.sln".to_string(), Some("All.sln".to_string())),
        ("/d/Via.csproj".to_string(), Some("Via.csproj".to_string())),
    ];
    assert_eq!(pick_in_directory(&entries), DirectoryPick::Solution("/d/All.sln".to_string()));
    let paths = SolutionLoader::new().solution_project_paths(
        "Project(\"{9A19103F-16F7-4668-BE54-9A1E7A4F7556}\") = \"Via\", \"Via.csproj\", \"{55555555-5555-5555-5555-555555555555}\"\nEndProject\n",
    );
    assert_eq!(paths, vec!["Via.csproj".to_string()]);
    let d = SolutionLoader::new().describe_project(
        "/d/Via.csproj".to_string(),
        Some("<Project><PropertyGroup><TargetFramework>net10.0</TargetFramework></PropertyGroup></Project>"),
    );
    assert_eq!(d.project_path, "/d/Via.csproj");
    assert_eq!(d.target_framework.as_deref(), Some("net10.0"));
}

#[test]
fn directory_without_solution_takes_the_last_project() {
    let entries = vec![
        ("/d/A.csproj".to_string(), Some("A.csproj".to_string())),
        ("/d/readme.md".to_string(), Some("readme.md".to_string())),
        ("/d/B.CSPROJ".to_string(), Some("B.CSPROJ".to_string())),
    ];
    assert_eq!(pick_in_directory(&entries), DirectoryPick::Project("/d/B.CSPROJ".to_string()));
    assert_eq!(pick_in_directory(&vec![]), DirectoryPick::Nothing);
}

#[test]
fn sln_lines_are_parsed_like_the_solution_format() {
    assert_eq!(
        sln_project_path("  Project(\"{X}\") = \"App\", \" src\\App.CsProj \", \"{G}\"  ").as_deref(),
        Some("src\\App.CsProj")
    );
    assert_eq!(sln_project_path("EndProject"), None);
    assert_eq!(sln_project_path("Project(\"{X}\") \"App\", \"App.csproj\""), None);
    assert_eq!(sln_project_path("Project(\"{X}\") = \"App\", \"App.csproj"), None);
    assert_eq!(sln_project_path("Project(\"{X}\") = \".csproj\", \"a.csproj\""), Some("a.csproj".to_string()));
}

#[test]
fn extensions_follow_path_extension() {
    assert_eq!(extension("App.sln").as_deref(), Some("sln"));
    assert_eq!(extension("a.b.csproj").as_deref(), Some("csproj"));
    assert_eq!(extension(".sln"), None);
    assert_eq!(extension(".."), None);
    assert_eq!(extension("noext"), None);
    assert_eq!(extension("trailing.").as_deref(), Some(""));
    assert_eq!(file_kind(Some("X.SLN")), ProjectFileKind::Solution);
    assert_eq!(file_kind(Some("X.CsProj")), ProjectFileKind::Project);
    assert_eq!(file_kind(Some("X.vcxproj")), ProjectFileKind::Other);
    assert_eq!(file_kind(None), ProjectFileKind::Other);
}

#[test]
fn tag_values_are_trimmed_and_nonblank() {
    assert_eq!(tag_value("<A> x </A>", "A").as_deref(), Some("x"));
    assert_eq!(tag_value("<A>  </A>", "A"), None);
    assert_eq!(tag_value("<A>x", "A"), None);
    assert_eq!(tag_value("</A><A>y</A>", "A").as_deref(), Some("y"));
    assert_eq!(target_framework("<TargetFrameworks> ;net8.0</TargetFrameworks>"), None);
}

#[test]
fn discover_errors_read_like_the_loader() {
    assert_eq!(DiscoverError::Missing("/x".into()).message(), "path does not exist: /x");
    assert_eq!(
        DiscoverError::Unsupported(Some("txt".into())).message(),
        "unsupported input `txt` (expected .sln, .csproj, or a directory)"
    );
    assert_eq!(
        DiscoverError::Unsupported(None).message(),
        "unsupported input `<no extension>` (expected .sln, .csproj, or a directory)"
    );
    assert_eq!(
        DiscoverError::NoProjectFile("/d".into()).message(),
        "no .sln or .csproj found in directory /d"
    );
}

#[test]
fn discovery_steps_follow_the_file_kind() {
    assert_eq!(
        file_step("/x/App.SLN".into(), Some("App.SLN")),
        DiscoverStep::ReadSolution("/x/App.SLN".into())
    );
    assert_eq!(
        file_step("/x/App.csproj".into(), Some("App.csproj")),
        DiscoverStep::Describe("/x/App.csproj".into())
    );
    assert_eq!(
        file_step("/x/readme.TXT".into(), Some("readme.TXT")),
        DiscoverStep::Fail(DiscoverError::Unsupported(Some("txt".into())))
    );
    assert_eq!(
        file_step("/x/Makefile".into(), Some("Makefile")),
        DiscoverStep::Fail(DiscoverError::Unsupported(None))
    );
    assert_eq!(
        file_step("/".into(), None),
        DiscoverStep::Fail(DiscoverError::Unsupported(None))
    );
    assert_eq!(
        directory_step(DirectoryPick::Solution("/d/A.sln".into()), "/d"),
        DiscoverStep::ReadSolution("/d/A.sln".into())
    );
    assert_eq!(
        directory_step(DirectoryPick::Project("/d/A.csproj".into()), "/d"),
        DiscoverStep::Describe("/d/A.csproj".into())
    );
    assert_eq!(
        directory_step(DirectoryPick::Nothing, "/d"),
        DiscoverStep::Fail(DiscoverError::NoProjectFile("/d".into()))
    );
}
