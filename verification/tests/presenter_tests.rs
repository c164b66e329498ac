use lookahead::presenter::{Presenter, SyncStatus};
use lookahead::scheduler::GeneratedModel;

// A mesh is uploaded once per timestamp: the same timestamp again, or no
// mesh at all, keeps the GPU state as it is.
#[test]
fn uploads_once_per_timestamp() {
    let mut p = Presenter::new();
    assert!(p.status(0).is_none());

    let up = p.accept(Some(GeneratedModel { ts: 3, mesh: 30u64 }));
    assert_eq!(up.expect("new timestamp is uploaded").mesh, 30);

    let up = p.accept(Some(GeneratedModel { ts: 3, mesh: 31u64 }));
    assert!(up.is_none());

    let up: Option<GeneratedModel<u64>> = p.accept(None);
    assert!(up.is_none());

    let up = p.accept(Some(GeneratedModel { ts: 4, mesh: 40u64 }));
    assert_eq!(up.expect("fresh timestamp is uploaded").ts, 4);
}

// The reported relation to the current frame: equal, trailing, or leading,
// with the distance in frames.
#[test]
fn status_reports_relation_to_frame() {
    let mut p = Presenter::new();
    p.accept(Some(GeneratedModel { ts: 10, mesh: 0u64 }));
    assert_eq!(p.status(10), Some(SyncStatus::InSync));
    assert_eq!(p.status(13), Some(SyncStatus::Behind(3)));
    assert_eq!(p.status(8), Some(SyncStatus::Ahead(2)));
}
