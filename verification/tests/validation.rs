use gptrust_api::completions::CompletionPrompt;
use gptrust_api::completions::CreateCompletionRequest;
use gptrust_api::completions::StopWords;
use gptrust_api::completions::ValidationError;

fn base_request() -> CreateCompletionRequest {
    CreateCompletionRequest {
        model: String::from("text-davinci-003"),
        prompt: CompletionPrompt {
            prompt_text: Some(String::from("Hello")),
            prompt_texts: None,
            prompt_list: None,
            prompt_lists: None,
        },
        suffix: String::new(),
        max_tokens: 16,
        temperature: String::from("1.0"),
        top_p: String::from("1.0"),
        n: 1,
        stream: false,
        logprobs: 0,
        echo: false,
        stop: StopWords { stop_word: Some(String::from(".")), stop_words: None },
        presence_penalty: String::from("0.0"),
        frequency_penalty: String::from("0.0"),
        best_of: 1,
        logit_bias: Vec::new(),
        user: String::new(),
    }
}

#[test]
fn variant_counts_count_populated_shapes() {
    let req = base_request();
    assert_eq!(req.prompt.variant_count(), 1);
    assert_eq!(req.stop.variant_count(), 1);
    let mut req = base_request();
    req.prompt.prompt_list = Some(vec![7]);
    req.prompt.prompt_lists = Some(vec![]);
    req.stop.stop_word = None;
    assert_eq!(req.prompt.variant_count(), 3);
    assert_eq!(req.stop.variant_count(), 0);
}

#[test]
fn empty_model_is_rejected() {
    let mut req = base_request();
    req.model = String::new();
    assert_eq!(req.validate(), Err(ValidationError::EmptyModel));
}

#[test]
fn empty_model_wins_over_other_defects() {
    let mut req = base_request();
    req.model = String::new();
    req.prompt.prompt_texts = Some(vec![String::from("second")]);
    assert_eq!(req.validate(), Err(ValidationError::EmptyModel));
}

#[test]
fn single_text_prompt_is_accepted() {
    assert_eq!(base_request().validate(), Ok(()));
}

#[test]
fn single_texts_prompt_is_accepted() {
    let mut req = base_request();
    req.prompt.prompt_text = None;
    req.prompt.prompt_texts = Some(vec![String::from("a"), String::from("b")]);
    assert_eq!(req.validate(), Ok(()));
}

#[test]
fn single_token_list_prompt_is_accepted() {
    let mut req = base_request();
    req.prompt.prompt_text = None;
    req.prompt.prompt_list = Some(vec![1, 2, 3]);
    assert_eq!(req.validate(), Ok(()));
}

#[test]
fn single_token_lists_prompt_is_accepted() {
    let mut req = base_request();
    req.prompt.prompt_text = None;
    req.prompt.prompt_lists = Some(vec![vec![1, 2], vec![3]]);
    assert_eq!(req.validate(), Ok(()));
}

#[test]
fn no_prompt_shape_is_ambiguous() {
    let mut req = base_request();
    req.prompt.prompt_text = None;
    assert_eq!(req.validate(), Err(ValidationError::AmbiguousPrompt));
}

#[test]
fn two_prompt_shapes_are_ambiguous() {
    let mut req = base_request();
    req.prompt.prompt_list = Some(vec![1]);
    assert_eq!(req.validate(), Err(ValidationError::AmbiguousPrompt));
}

#[test]
fn all_prompt_shapes_are_ambiguous() {
    let mut req = base_request();
    req.prompt.prompt_texts = Some(vec![String::from("x")]);
    req.prompt.prompt_list = Some(vec![1]);
    req.prompt.prompt_lists = Some(vec![vec![2]]);
    assert_eq!(req.validate(), Err(ValidationError::AmbiguousPrompt));
}

#[test]
fn single_stop_word_is_accepted_whatever_it_holds() {
    let mut req = base_request();
    req.stop.stop_word = Some(String::new());
    assert_eq!(req.validate(), Ok(()));
    req.stop.stop_word = Some(String::from("a very long stop word, well beyond four"));
    assert_eq!(req.validate(), Ok(()));
}

#[test]
fn no_stop_shape_is_ambiguous() {
    let mut req = base_request();
    req.stop.stop_word = None;
    assert_eq!(req.validate(), Err(ValidationError::AmbiguousStop));
}

#[test]
fn both_stop_shapes_are_ambiguous() {
    let mut req = base_request();
    req.stop.stop_words = Some(vec![String::from(".")]);
    assert_eq!(req.validate(), Err(ValidationError::AmbiguousStop));
}

#[test]
fn four_stop_words_are_accepted() {
    let mut req = base_request();
    req.stop.stop_word = None;
    req.stop.stop_words = Some(vec![
        String::from("."),
        String::from("!"),
        String::from("?"),
        String::from("\n"),
    ]);
    assert_eq!(req.validate(), Ok(()));
}

#[test]
fn empty_stop_word_list_is_accepted() {
    let mut req = base_request();
    req.stop.stop_word = None;
    req.stop.stop_words = Some(Vec::new());
    assert_eq!(req.validate(), Ok(()));
}

#[test]
fn five_stop_words_are_too_many() {
    let mut req = base_request();
    req.stop.stop_word = None;
    req.stop.stop_words = Some(vec![
        String::from("."),
        String::from("!"),
        String::from("?"),
        String::from(";"),
        String::from(":"),
    ]);
    assert_eq!(req.validate(), Err(ValidationError::TooManyStopWords));
}

#[test]
fn both_text_shapes_fail_before_anything_is_sent() {
    let mut req = base_request();
    req.prompt.prompt_texts = Some(vec![String::from("also populated")]);
    assert_eq!(req.validate(), Err(ValidationError::AmbiguousPrompt));
    // prepare_request refuses to produce a body, so no transport can be
    // handed one.
    assert_eq!(gptrust_api::wire::prepare_request(&req), Err(ValidationError::AmbiguousPrompt));
}
