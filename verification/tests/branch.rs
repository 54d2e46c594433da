use bencher::branch::{
    new_branch, select_branch, BackendError, Branch, BranchError, CliRunBranch, Command, Event,
    IfBranch, JsonNewBranch, JsonStartPoint, Notice, Stage,
};
use bencher::resource::{BranchName, ResourceId, ValidError};

fn rid(s: &str) -> ResourceId {
    ResourceId(s.to_string())
}

fn options(
    branch: Option<&str>,
    if_branch: Option<Option<&str>>,
    start_points: &[&str],
    create: bool,
) -> CliRunBranch {
    CliRunBranch {
        branch: branch.map(rid),
        if_branch: if_branch.map(|o| o.map(|n| BranchName(n.to_string()))),
        else_if_branch: start_points.iter().map(|s| s.to_string()).collect(),
        else_branch: create,
        endif_branch: false,
    }
}

fn is_resource(b: &Result<Branch, BranchError>, text: &str) -> bool {
    matches!(b, Ok(Branch::ResourceId(r)) if r.0 == text)
}

#[test]
fn explicit_branch_wins() {
    let b = Branch::try_from(options(Some("feature"), Some(Some("x")), &[], true), Some(Ok(rid("env"))), Ok(rid("main")));
    assert!(is_resource(&b, "feature"));
}

#[test]
fn environment_comes_next() {
    let b = Branch::try_from(options(None, Some(Some("x")), &[], true), Some(Ok(rid("env"))), Ok(rid("main")));
    assert!(is_resource(&b, "env"));
    let bad = Branch::try_from(
        options(None, None, &[], false),
        Some(Err(ValidError("bad slug!".to_string()))),
        Ok(rid("main")),
    );
    assert!(matches!(bad, Err(BranchError::ParseBranch(ValidError(t))) if t == "bad slug!"));
}

#[test]
fn if_branch_names_or_skips() {
    let b = Branch::try_from(options(None, Some(Some("x")), &["a", "b"], true), None, Ok(rid("main")));
    match b {
        Ok(Branch::Name { name, start_points, create }) => {
            assert_eq!(name, BranchName("x".to_string()));
            assert_eq!(start_points, vec!["a".to_string(), "b".to_string()]);
            assert!(create);
        },
        _ => panic!("expected a named branch"),
    }
    let skip = Branch::try_from(options(None, Some(None), &[], false), None, Ok(rid("main")));
    assert!(matches!(skip, Ok(Branch::Skip)));
}

#[test]
fn main_branch_last() {
    let b = Branch::try_from(options(None, None, &[], false), None, Ok(rid("main")));
    assert!(is_resource(&b, "main"));
}

#[test]
fn select_branch_expects_exactly_one() {
    let p = rid("proj");
    let n = BranchName("x".to_string());
    assert_eq!(select_branch(&p, &n, vec![]), Ok(None));
    assert_eq!(select_branch(&p, &n, vec![9]), Ok(Some(9)));
    assert_eq!(
        select_branch(&p, &n, vec![1, 2, 3]),
        Err(BranchError::BranchName { project: "proj".to_string(), branch_name: "x".to_string(), count: 3 })
    );
}

#[test]
fn new_branch_request() {
    let n = BranchName("x".to_string());
    assert_eq!(
        new_branch(&n, Some(rid("main"))),
        JsonNewBranch {
            name: n.clone(),
            slug: None,
            soft: Some(true),
            start_point: Some(JsonStartPoint { branch: rid("main"), thresholds: Some(true) }),
        }
    );
    assert_eq!(new_branch(&n, None).start_point, None);
}

#[test]
fn resource_id_from_uuid() {
    assert_eq!(ResourceId::from_uuid(255).0, "00000000-0000-0000-0000-0000000000ff");
}

#[test]
fn search_finds_the_branch_itself() {
    let (mut m, c) = IfBranch::new(2, true, false);
    assert_eq!(c, Command::GetTarget);
    assert_eq!(m.step(Event::Found(Ok(Some(5)))), (None, Command::Finish(Ok(Some(5)))));
    assert_eq!(m.stage, Stage::Done);
}

#[test]
fn search_walks_start_points_in_order() {
    let (mut m, _) = IfBranch::new(3, false, false);
    assert_eq!(m.step(Event::Found(Ok(None))), (Some(Notice::BranchNotFound), Command::ParseStartPoint(0)));
    assert_eq!(m.step(Event::Parsed(false)), (Some(Notice::StartPointUnreadable(1)), Command::ParseStartPoint(1)));
    assert_eq!(m.step(Event::Parsed(true)), (None, Command::GetStartPoint(1)));
    assert_eq!(m.step(Event::Found(Ok(None))), (Some(Notice::StartPointNotFound(2)), Command::ParseStartPoint(2)));
    assert_eq!(m.step(Event::Parsed(true)), (None, Command::GetStartPoint(2)));
    assert_eq!(m.step(Event::Found(Ok(Some(77)))), (None, Command::CreateFrom { index: 2, start_point: 77 }));
    assert_eq!(m.step(Event::Created(Ok(78))), (None, Command::Finish(Ok(Some(78)))));
}

#[test]
fn search_without_start_points_ends_by_the_create_flag() {
    let (mut m, _) = IfBranch::new(0, false, false);
    assert_eq!(m.step(Event::Found(Ok(None))), (Some(Notice::BranchNotFound), Command::Finish(Ok(None))));

    let (mut m, _) = IfBranch::new(0, true, false);
    assert_eq!(m.step(Event::Found(Ok(None))), (Some(Notice::BranchNotFound), Command::CreateNew));
    let err = BranchError::CreateBranch(BackendError("down".to_string()));
    assert_eq!(
        m.step(Event::Created(Err(BranchError::CreateBranch(BackendError("down".to_string()))))),
        (None, Command::Finish(Err(err)))
    );

    let (mut m, _) = IfBranch::new(0, true, true);
    assert_eq!(m.step(Event::Found(Ok(None))), (Some(Notice::BranchNotFound), Command::NewUuid));
    let v4: u128 = 0x0000_0000_0000_4000_8000_0000_0000_0000;
    assert_eq!(m.step(Event::Drawn(v4)), (None, Command::Finish(Ok(Some(v4)))));
}

#[test]
fn search_stops_on_lookup_errors() {
    let (mut m, _) = IfBranch::new(1, true, false);
    let e = || BranchError::GetBranches(BackendError("timeout".to_string()));
    assert_eq!(m.step(Event::Found(Err(e()))), (None, Command::Finish(Err(e()))));

    let (mut m, _) = IfBranch::new(1, true, false);
    m.step(Event::Found(Ok(None)));
    m.step(Event::Parsed(true));
    assert_eq!(m.step(Event::Found(Err(e()))), (None, Command::Finish(Err(e()))));
}

#[test]
fn uuid_resource_id_reads_back() {
    let u: u128 = 0x0123_4567_89ab_cdef_0123_4567_89ab_cdef;
    let r = ResourceId::from_uuid(u);
    assert_eq!(r.0, "01234567-89ab-cdef-0123-456789abcdef");
    assert_eq!(bencher::organization::QueryOrganization::get_uuid(&r.0), Ok(u));
}

#[test]
fn dry_run_draws_instead_of_creating() {
    let (mut m, _) = IfBranch::new(1, true, true);
    assert_eq!(m.step(Event::Found(Ok(None))), (Some(Notice::BranchNotFound), Command::ParseStartPoint(0)));
    assert_eq!(m.step(Event::Parsed(true)), (None, Command::GetStartPoint(0)));
    assert_eq!(m.step(Event::Found(Ok(None))), (Some(Notice::StartPointNotFound(1)), Command::NewUuid));
    assert_eq!(m.stage, Stage::Drawing);
}
