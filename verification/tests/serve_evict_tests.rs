use abgen_serve::content::{content_step, ContentStage};
use abgen_serve::eviction::{eviction_order, CachedFile, Eviction};
use abgen_serve::gpu::bc7_mode6::mode6_dispatch;
use abgen_serve::gpu::is_gpu_available;
use abgen_serve::serve::{serve_step, BuildWait, ServeEvent, ServeSource, ServeState, ServeStep, SlowWait};

fn reply(step: ServeStep) -> (u16, Vec<u8>, ServeSource) {
    match step {
        ServeStep::Respond(r) => (r.code, r.body, r.source),
        _ => panic!("expected a reply"),
    }
}

#[test]
fn serve_from_cache() {
    let (s, step) = serve_step(ServeState::Start, ServeEvent::Cache(Some(vec![1, 2])));
    assert!(matches!(s, ServeState::Answered));
    assert_eq!(reply(step), (200, vec![1, 2], ServeSource::Cache));
}

#[test]
fn serve_fresh_build() {
    let (s, step) = serve_step(ServeState::Start, ServeEvent::Cache(None));
    assert!(matches!(step, ServeStep::StartBuild));
    let (_, step) = serve_step(s, ServeEvent::Build(BuildWait::Built(vec![7])));
    assert_eq!(reply(step), (200, vec![7], ServeSource::Fresh));
}

#[test]
fn serve_failed_build_without_fallback() {
    let (s, step) = serve_step(ServeState::AwaitBuild, ServeEvent::Build(BuildWait::Failed("bad glb".to_string())));
    assert!(matches!(step, ServeStep::FetchFallback));
    let (_, step) = serve_step(s, ServeEvent::Fallback(None));
    assert_eq!(reply(step), (500, b"build failed: bad glb".to_vec(), ServeSource::Error));
}

#[test]
fn serve_failed_build_with_fallback() {
    let (s, _) = serve_step(ServeState::AwaitBuild, ServeEvent::Build(BuildWait::Failed("x".to_string())));
    let (_, step) = serve_step(s, ServeEvent::Fallback(Some(vec![9])));
    assert_eq!(reply(step), (200, vec![9], ServeSource::FallbackAfterFailure));
}

#[test]
fn serve_slow_build_paths() {
    let (s, step) = serve_step(ServeState::AwaitBuild, ServeEvent::Build(BuildWait::TimedOut));
    assert!(matches!(step, ServeStep::FetchFallback));
    let (s2, step) = serve_step(s, ServeEvent::Fallback(None));
    assert!(matches!(step, ServeStep::WaitLonger));
    let (_, step) = serve_step(s2, ServeEvent::SlowBuild(SlowWait::Built(vec![3])));
    assert_eq!(reply(step), (200, vec![3], ServeSource::FreshSlow));
    let (_, step) = serve_step(ServeState::AwaitSlowBuild, ServeEvent::SlowBuild(SlowWait::ChannelClosed));
    assert_eq!(reply(step), (500, b"build channel closed".to_vec(), ServeSource::Error));
    let (_, step) = serve_step(ServeState::AwaitSlowBuild, ServeEvent::SlowBuild(SlowWait::Failed("e".to_string())));
    assert_eq!(reply(step), (500, b"build failed: e".to_vec(), ServeSource::Error));
    let (_, step) = serve_step(ServeState::FallbackAfterTimeout, ServeEvent::Fallback(Some(vec![4])));
    assert_eq!(reply(step), (200, vec![4], ServeSource::Fallback));
}

#[test]
fn serve_worker_gone() {
    let (_, step) = serve_step(ServeState::AwaitBuild, ServeEvent::Build(BuildWait::WorkerGone));
    assert_eq!(reply(step), (500, b"build worker died".to_vec(), ServeSource::Error));
}

#[test]
fn serve_source_labels() {
    assert_eq!(ServeSource::FallbackAfterFailure.label(), "fallback(build-failed)");
    assert_eq!(ServeSource::FreshSlow.label(), "fresh-slow");
}

fn f(modified: i128, len: u64) -> CachedFile {
    CachedFile { modified, len }
}

#[test]
fn eviction_order_is_stable_oldest_first() {
    let files = vec![f(5, 1), f(-2, 1), f(5, 1), f(3, 1), f(-2, 1)];
    assert_eq!(eviction_order(&files), vec![1, 4, 3, 0, 2]);
}

#[test]
fn eviction_removes_oldest_until_under_cap() {
    let files = vec![f(30, 40), f(10, 50), f(20, 30)];
    let mut ev = Eviction::plan(&files, 60);
    let mut removed = Vec::new();
    while let Some(v) = ev.next_victim() {
        removed.push(v);
        ev.record_removal(true);
    }
    assert_eq!(removed, vec![1, 2]);
}

#[test]
fn eviction_failed_removal_keeps_going() {
    let files = vec![f(30, 40), f(10, 50), f(20, 30)];
    let mut ev = Eviction::plan(&files, 60);
    let mut seen = Vec::new();
    while let Some(v) = ev.next_victim() {
        seen.push(v);
        ev.record_removal(v != 1);
    }
    assert_eq!(seen, vec![1, 2, 0]);
}

#[test]
fn eviction_nothing_when_fits_or_uncapped() {
    let files = vec![f(1, 10), f(2, 10)];
    assert_eq!(Eviction::plan(&files, 20).next_victim(), None);
    assert_eq!(Eviction::plan(&files, 0).next_victim(), None);
    assert_eq!(Eviction::plan(&files, 19).next_victim(), Some(0));
}

#[test]
fn content_fetch_stages() {
    assert_eq!(content_step(ContentStage::Check, true, true), ContentStage::Present);
    assert_eq!(content_step(ContentStage::Check, false, true), ContentStage::TryLocal);
    assert_eq!(content_step(ContentStage::Check, false, false), ContentStage::TryRemote);
    assert_eq!(content_step(ContentStage::TryLocal, false, true), ContentStage::TryRemote);
    assert_eq!(content_step(ContentStage::TryLocal, true, true), ContentStage::StoreLocal);
    assert_eq!(content_step(ContentStage::TryRemote, false, false), ContentStage::Failed);
    assert_eq!(content_step(ContentStage::StoreRemote, true, false), ContentStage::Present);
    assert_eq!(content_step(ContentStage::StoreLocal, false, true), ContentStage::Failed);
}

#[test]
fn mode6_layout() {
    assert!(mode6_dispatch(0).is_none());
    let d = mode6_dispatch(128).unwrap();
    assert_eq!((d.num_blocks, d.workgroups, d.out_bytes), (2, 2, 32));
}

#[test]
fn no_gpu_in_this_build() {
    assert!(!is_gpu_available());
}
