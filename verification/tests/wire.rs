use gptrust_api::completions::CompletionPrompt;
use gptrust_api::completions::CreateCompletionRequest;
use gptrust_api::completions::StopWords;
use gptrust_api::wire::prepare_request;
use gptrust_api::wire::serialize_request;

fn hello_request() -> CreateCompletionRequest {
    CreateCompletionRequest {
        model: String::from("text-davinci-003"),
        prompt: CompletionPrompt {
            prompt_text: Some(String::from("Hello")),
            prompt_texts: None,
            prompt_list: None,
            prompt_lists: None,
        },
        suffix: String::new(),
        max_tokens: 16,
        temperature: String::from("1.0"),
        top_p: String::from("1.0"),
        n: 1,
        stream: false,
        logprobs: 0,
        echo: false,
        stop: StopWords { stop_word: Some(String::from(".")), stop_words: None },
        presence_penalty: String::from("0.0"),
        frequency_penalty: String::from("0.0"),
        best_of: 1,
        logit_bias: Vec::new(),
        user: String::new(),
    }
}

#[test]
fn hello_request_serializes_only_populated_shapes() {
    let req = hello_request();
    assert_eq!(req.validate(), Ok(()));
    let body = serialize_request(&req);
    let expected = "{\"model\":\"text-davinci-003\",\
\"prompt\":{\"prompt_text\":\"Hello\"},\
\"suffix\":\"\",\
\"max_tokens\":16,\
\"temperature\":1.0,\
\"top_p\":1.0,\
\"n\":1,\
\"stream\":false,\
\"logprobs\":0,\
\"echo\":false,\
\"stop\":{\"stop_word\":\".\"},\
\"presence_penalty\":0.0,\
\"frequency_penalty\":0.0,\
\"best_of\":1,\
\"logit_bias\":{},\
\"user\":\"\"}";
    assert_eq!(body, expected);
    assert!(!body.contains("prompt_texts"));
    assert!(!body.contains("prompt_list"));
    assert!(!body.contains("prompt_lists"));
    assert!(!body.contains("stop_words"));
}

#[test]
fn hello_request_body_is_json_a_parser_accepts() {
    let req = hello_request();
    let body = prepare_request(&req).unwrap();
    let value: serde_json::Value = serde_json::from_str(&body).unwrap();
    assert_eq!(value.get("model").unwrap().as_str().unwrap(), "text-davinci-003");
    let prompt = value.get("prompt").unwrap().as_object().unwrap();
    assert_eq!(prompt.len(), 1);
    assert_eq!(prompt.get("prompt_text").unwrap().as_str().unwrap(), "Hello");
    let stop = value.get("stop").unwrap().as_object().unwrap();
    assert_eq!(stop.len(), 1);
    assert_eq!(stop.get("stop_word").unwrap().as_str().unwrap(), ".");
    assert_eq!(value.get("max_tokens").unwrap().as_i64().unwrap(), 16);
    assert_eq!(value.get("temperature").unwrap().as_f64().unwrap(), 1.0);
    assert_eq!(value.get("stream").unwrap().as_bool().unwrap(), false);
}

#[test]
fn strings_are_escaped_for_json() {
    let mut req = hello_request();
    req.prompt.prompt_text = Some(String::from("say \"hi\"\\\n\tplease\u{1}"));
    let body = serialize_request(&req);
    assert!(body.contains("{\"prompt_text\":\"say \\\"hi\\\"\\\\\\n\\tplease\\u0001\"}"));
    let value: serde_json::Value = serde_json::from_str(&body).unwrap();
    assert_eq!(
        value.get("prompt").unwrap().get("prompt_text").unwrap().as_str().unwrap(),
        "say \"hi\"\\\n\tplease\u{1}"
    );
}

#[test]
fn token_prompts_and_biases_serialize_as_numbers() {
    let mut req = hello_request();
    req.prompt.prompt_text = None;
    req.prompt.prompt_lists = Some(vec![vec![15339, -1, 0], vec![], vec![9906]]);
    req.logit_bias = vec![(15339, String::from("-0.5")), (50256, String::from("2"))];
    req.max_tokens = -1;
    let body = serialize_request(&req);
    assert!(body.contains("\"prompt\":{\"prompt_lists\":[[15339,-1,0],[],[9906]]}"));
    assert!(body.contains("\"logit_bias\":{\"15339\":-0.5,\"50256\":2}"));
    assert!(body.contains("\"max_tokens\":-1,"));
    let value: serde_json::Value = serde_json::from_str(&body).unwrap();
    let lists = value.get("prompt").unwrap().get("prompt_lists").unwrap();
    assert_eq!(lists.get(0).unwrap().get(0).unwrap().as_i64().unwrap(), 15339);
    assert_eq!(value.get("logit_bias").unwrap().get("15339").unwrap().as_f64().unwrap(), -0.5);
}

#[test]
fn texts_prompt_and_stop_list_serialize_as_string_arrays() {
    let mut req = hello_request();
    req.prompt.prompt_text = None;
    req.prompt.prompt_texts = Some(vec![String::from("one"), String::from("two")]);
    req.stop.stop_word = None;
    req.stop.stop_words = Some(vec![String::from("."), String::from("\n")]);
    let body = serialize_request(&req);
    assert!(body.contains("\"prompt\":{\"prompt_texts\":[\"one\",\"two\"]}"));
    assert!(body.contains("\"stop\":{\"stop_words\":[\".\",\"\\n\"]}"));
}

#[test]
fn extreme_integers_serialize_exactly() {
    let mut req = hello_request();
    req.prompt.prompt_text = None;
    req.prompt.prompt_list = Some(vec![i64::MIN, i64::MAX]);
    req.max_tokens = i32::MIN;
    req.n = i32::MAX;
    let body = serialize_request(&req);
    assert!(body.contains("\"prompt_list\":[-9223372036854775808,9223372036854775807]"));
    assert!(body.contains("\"max_tokens\":-2147483648,"));
    assert!(body.contains("\"n\":2147483647,"));
}

#[test]
fn invalid_request_yields_no_body() {
    let mut req = hello_request();
    req.model = String::new();
    assert!(prepare_request(&req).is_err());
}
