use uci_bridge::config_parser::{ConfigOptions, Eng};
use uci_bridge::engine::{EngineInput, Limit};

fn settings(config: Option<Vec<(&str, &str)>>, limit: Limit) -> ConfigOptions {
    ConfigOptions {
        engine: Eng {
            command: "stockfish".to_string(),
            args: None,
            config: config
                .map(|l| l.into_iter().map(|(k, v)| (k.to_string(), v.to_string())).collect()),
        },
        limit,
    }
}

#[test]
fn setup_engine_sets_the_options_in_order() {
    let config = settings(
        Some(vec![("Skill_Level", "10"), ("Hash", "128"), ("Syzygy_Probe_Depth", "1")]),
        Limit::Depth(4),
    );
    let mut einp = EngineInput::new();
    config.setup_engine(&mut einp);
    assert_eq!(
        einp.take(),
        "setoption name Skill Level value 10\nsetoption name Hash value 128\nsetoption name Syzygy Probe Depth value 1\n"
    );
}

#[test]
fn setup_engine_leaves_values_as_they_are() {
    let config = settings(Some(vec![("Eval_File", "\"my_net.nnue\"")]), Limit::Depth(4));
    let mut einp = EngineInput::new();
    config.setup_engine(&mut einp);
    assert_eq!(einp.take(), "setoption name Eval File value \"my_net.nnue\"\n");
}

#[test]
fn setup_engine_without_options_sends_nothing() {
    let mut einp = EngineInput::new();
    settings(None, Limit::Depth(4)).setup_engine(&mut einp);
    assert_eq!(einp.take(), "");
    settings(Some(Vec::new()), Limit::Depth(4)).setup_engine(&mut einp);
    assert_eq!(einp.take(), "");
}

#[test]
fn setup_engine_adds_to_what_is_waiting() {
    let mut einp = EngineInput::new();
    einp.send_single_line("uci\n");
    settings(Some(vec![("Threads", "2")]), Limit::Depth(4)).setup_engine(&mut einp);
    assert_eq!(einp.take(), "uci\nsetoption name Threads value 2\n");
}

#[test]
fn limit_is_the_configured_one() {
    assert_eq!(settings(None, Limit::Movetime(250)).limit(), Limit::Movetime(250));
    assert_eq!(settings(None, Limit::Node(7)).limit(), Limit::Node(7));
}
