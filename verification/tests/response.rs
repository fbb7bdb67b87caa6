use gptrust_api::completions::Choice;
use gptrust_api::completions::CreateCompletionResponse;
use gptrust_api::completions::LogProbs;
use gptrust_api::completions::Usage;
use gptrust_api::wire::serialize_response;

fn plain_response() -> CreateCompletionResponse {
    CreateCompletionResponse {
        id: String::from("cmpl-1"),
        object: String::from("text_completion"),
        created: 1680000000,
        model: String::from("text-davinci-003"),
        choices: vec![Choice {
            text: String::from("Hello world"),
            index: 0,
            log_probs: None,
            finish_reason: String::from("stop"),
        }],
        usage: Usage { prompt_tokens: 1, completed_tokens: 11, total_tokens: 12 },
    }
}

#[test]
fn response_serializes_exactly() {
    let body = serialize_response(&plain_response());
    let expected = "{\"id\":\"cmpl-1\",\
\"object\":\"text_completion\",\
\"created\":1680000000,\
\"model\":\"text-davinci-003\",\
\"choices\":[{\"text\":\"Hello world\",\"index\":0,\"finish_reason\":\"stop\"}],\
\"usage\":{\"prompt_tokens\":1,\"completed_tokens\":11,\"total_tokens\":12}}";
    assert_eq!(body, expected);
}

#[test]
fn parallel_sequences_are_well_formed() {
    let mut r = plain_response();
    assert!(r.check_wf());
    r.choices[0].log_probs = Some(LogProbs {
        tokens: vec![String::from("a"), String::from("b")],
        token_log_probs: vec![String::from("-1")],
        top_log_probs: vec![vec![], vec![]],
        text_offset: vec![0, 1],
    });
    assert!(!r.check_wf());
    r.choices[0].log_probs = Some(LogProbs {
        tokens: vec![String::from("a")],
        token_log_probs: vec![String::from("-1")],
        top_log_probs: vec![vec![]],
        text_offset: vec![0],
    });
    assert!(r.check_wf());
}

#[test]
fn empty_choices_response_is_valid_json() {
    let mut r = plain_response();
    r.choices = Vec::new();
    let body = serialize_response(&r);
    let value: serde_json::Value = serde_json::from_str(&body).unwrap();
    assert!(value["choices"].as_array().unwrap().is_empty());
    assert_eq!(value["usage"]["total_tokens"].as_i64().unwrap(), 12);
}

#[test]
fn response_round_trips_through_an_independent_parser() {
    let r = CreateCompletionResponse {
        id: String::from("cmpl-2"),
        object: String::from("text_completion"),
        created: -3,
        model: String::from("m"),
        choices: vec![
            Choice {
                text: String::from("A"),
                index: 0,
                log_probs: Some(LogProbs {
                    tokens: vec![String::from("A"), String::from("!")],
                    token_log_probs: vec![String::from("-0.25"), String::from("-1.5e-2")],
                    top_log_probs: vec![
                        vec![
                            (String::from("A"), String::from("-0.25")),
                            (String::from("B"), String::from("-1.5")),
                        ],
                        vec![],
                    ],
                    text_offset: vec![0, 1],
                }),
                finish_reason: String::from("length"),
            },
            Choice {
                text: String::from("say \"hi\"\n"),
                index: 1,
                log_probs: None,
                finish_reason: String::from("stop"),
            },
        ],
        usage: Usage { prompt_tokens: 2, completed_tokens: 3, total_tokens: 5 },
    };
    let body = serialize_response(&r);
    let value: serde_json::Value = serde_json::from_str(&body).unwrap();
    assert_eq!(value["id"].as_str().unwrap(), "cmpl-2");
    assert_eq!(value["created"].as_i64().unwrap(), -3);
    let c0 = &value["choices"][0];
    assert_eq!(c0["text"].as_str().unwrap(), "A");
    assert_eq!(c0["index"].as_i64().unwrap(), 0);
    let lp = &c0["log_probs"];
    assert_eq!(lp["tokens"][1].as_str().unwrap(), "!");
    assert_eq!(lp["token_log_probs"][0].as_f64().unwrap(), -0.25);
    assert_eq!(lp["token_log_probs"][1].as_f64().unwrap(), -0.015);
    assert_eq!(lp["top_log_probs"][0]["B"].as_f64().unwrap(), -1.5);
    assert!(lp["top_log_probs"][1].as_object().unwrap().is_empty());
    assert_eq!(lp["text_offset"][1].as_i64().unwrap(), 1);
    let c1 = &value["choices"][1];
    assert_eq!(c1["text"].as_str().unwrap(), "say \"hi\"\n");
    assert!(c1.get("log_probs").is_none());
    assert_eq!(c1["finish_reason"].as_str().unwrap(), "stop");
}
