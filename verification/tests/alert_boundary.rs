use bencher::alert::AlertView;
use bencher::boundary::below_min_sample_size;
use bencher::resource::ResourceId;

#[test]
fn alert_path_names_project_and_alert() {
    let view = AlertView {
        project: ResourceId("the-computer".to_string()),
        alert: 0x550e8400_e29b_41d4_a716_446655440000,
    };
    assert_eq!(view.path(), "/v0/projects/the-computer/alerts/550e8400-e29b-41d4-a716-446655440000");
    let zero = AlertView { project: ResourceId("p".to_string()), alert: 0 };
    assert_eq!(zero.path(), "/v0/projects/p/alerts/00000000-0000-0000-0000-000000000000");
}

#[test]
fn min_sample_size_gate() {
    assert!(!below_min_sample_size(3, None));
    assert!(below_min_sample_size(3, Some(4)));
    assert!(!below_min_sample_size(4, Some(4)));
    assert!(!below_min_sample_size(0, Some(0)));
    assert!(below_min_sample_size(1_000_000, Some(-1)));
}
