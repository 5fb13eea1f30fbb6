use market_core::deploy::{DeployFrame, DeployResult, StartMode};
use market_core::proxy::GsbToHttpProxy;

#[test]
fn deploy_frames() {
    assert_eq!(DeployResult::frame(b""), DeployFrame::Empty);
    assert_eq!(DeployResult::frame(b"{\"valid\": {\"Ok\": \"success\"}}"), DeployFrame::Json);
    assert_eq!(DeployResult::frame(b"oops"), DeployFrame::Invalid);
    let empty = DeployResult::empty();
    assert_eq!(empty.valid, Ok(String::new()));
    assert!(empty.vols.is_empty());
    assert_eq!(empty.start_mode, StartMode::default());
}

#[test]
fn proxy_joins_base_and_path() {
    let proxy = GsbToHttpProxy::new("http://localhost:8080".to_string());
    assert_eq!(proxy.url("/endpoint"), "http://localhost:8080/endpoint");
}
