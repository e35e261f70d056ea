use dezoomify::auto::{AttemptOutcome, AutoProbe, AutoStep};
use dezoomify::dezoomer::{DezoomerError, ResolutionLoop, ResolveStep, ZoomLevel};
use dezoomify::errors::ZoomError;
use dezoomify::selector::Arguments;
use dezoomify::vec2d::Vec2d;

fn level(name: &str) -> ZoomLevel {
    ZoomLevel::new(String::from(name), Some(Vec2d { x: 1, y: 1 }), Vec::new(), Vec::new())
}

/// A scripted probe: answers `NeedsData` for each uri in turn, then
/// succeeds, mirroring a protocol implementation that must read several
/// remote manifests before it can enumerate levels.
struct ScriptedProbe {
    needs: Vec<String>,
    calls: usize,
}

impl ScriptedProbe {
    fn probe(&mut self) -> Result<Vec<ZoomLevel>, DezoomerError> {
        let i = self.calls;
        self.calls += 1;
        if i < self.needs.len() {
            Err(DezoomerError::NeedsData { uri: self.needs[i].clone() })
        } else {
            Ok(vec![level("found")])
        }
    }
}

#[test]
fn resolution_loop_performs_one_fetch_per_needs_data() {
    let n = 3usize;
    let mut probe = ScriptedProbe {
        needs: (0..n).map(|i| format!("https://example.com/manifest-{}", i)).collect(),
        calls: 0,
    };
    let mut state = ResolutionLoop::new(String::from("https://example.com/start"));
    let mut fetches_done: Vec<String> = Vec::new();
    let levels = loop {
        let outcome = probe.probe();
        match state.step(outcome) {
            ResolveStep::Done { levels } => break levels,
            ResolveStep::FetchMore { uri } => {
                // the scripted transport returns recognisable bytes per uri
                let bytes = uri.as_bytes().to_vec();
                fetches_done.push(uri.clone());
                state.supply_data(uri, bytes);
            }
            ResolveStep::Abort { .. } => panic!("the scripted probe never fails"),
        }
    };
    // exactly n additional fetches, in the requested order
    assert_eq!(state.fetches, n);
    assert_eq!(fetches_done.len(), n);
    for (i, uri) in fetches_done.iter().enumerate() {
        assert_eq!(uri, &format!("https://example.com/manifest-{}", i));
    }
    // the successful probe call saw the bytes of the last fetch
    assert_eq!(state.input.uri, "https://example.com/manifest-2");
    assert_eq!(
        state.input.contents.as_deref(),
        Some("https://example.com/manifest-2".as_bytes())
    );
    assert_eq!(levels.len(), 1);
    assert_eq!(levels[0].name, "found");
}

#[test]
fn resolution_loop_zero_fetches_on_immediate_success() {
    let state = ResolutionLoop::new(String::from("local.txt"));
    match state.step(Ok(vec![level("direct")])) {
        ResolveStep::Done { levels } => assert_eq!(levels[0].name, "direct"),
        _ => panic!("success ends the loop"),
    }
    assert_eq!(state.fetches, 0);
    assert_eq!(state.input.contents, None);
}

#[test]
fn resolution_loop_propagates_failure() {
    let state = ResolutionLoop::new(String::from("local.txt"));
    match state.step(Err(DezoomerError::Failed { msg: String::from("bad catalog") })) {
        ResolveStep::Abort { error } => match error {
            ZoomError::Dezoomer { msg } => assert_eq!(msg, "bad catalog"),
            _ => panic!("a probe failure maps to a discovery error"),
        },
        _ => panic!("a probe failure is terminal"),
    }
}

#[test]
fn auto_takes_first_implementation_with_levels() {
    let mut auto = AutoProbe::new(3);
    assert_eq!(auto.current(), Some(0));
    let step = auto.on_attempt(AttemptOutcome::Failure { msg: String::from("not mine") });
    assert!(matches!(step, AutoStep::TryNext { index: 1 }));
    let step = auto.on_attempt(AttemptOutcome::Levels { levels: vec![level("yes")] });
    match step {
        AutoStep::Done { levels } => assert_eq!(levels[0].name, "yes"),
        _ => panic!("a non-empty level list wins"),
    }
}

#[test]
fn auto_aggregates_all_failure_reasons() {
    let mut auto = AutoProbe::new(2);
    let step = auto.on_attempt(AttemptOutcome::Failure { msg: String::from("first reason") });
    assert!(matches!(step, AutoStep::TryNext { index: 1 }));
    let step = auto.on_attempt(AttemptOutcome::Levels { levels: Vec::new() });
    match step {
        AutoStep::AllFailed { error } => match error {
            ZoomError::NoCompatibleDezoomer { reasons } => {
                assert_eq!(reasons.len(), 2);
                assert_eq!(reasons[0], "first reason");
                assert_eq!(reasons[1], "");
            }
            _ => panic!("expected the aggregate error"),
        },
        _ => panic!("all implementations failed"),
    }
}

#[test]
fn find_dezoomer_by_name() {
    let names = vec![String::from("auto"), String::from("zoomify"), String::from("iiif")];
    let mut args = Arguments {
        input_uri: None,
        outfile: String::from("out.jpg"),
        dezoomer: String::from("iiif"),
        largest: false,
        max_width: None,
        max_height: None,
        num_threads: None,
    };
    assert_eq!(args.find_dezoomer(&names).unwrap(), 2);
    args.dezoomer = String::from("nonexistent");
    match args.find_dezoomer(&names) {
        Err(ZoomError::NoSuchDezoomer { name }) => assert_eq!(name, "nonexistent"),
        _ => panic!("an unknown name is an error naming it"),
    }
}
