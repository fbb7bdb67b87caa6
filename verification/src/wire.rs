//! The JSON wire encoding of a completion request.
//!
//! Every field name appears exactly as the endpoint expects it, and the
//! unpopulated fields of the two "oneOf" groups (prompt and stop) are omitted
//! from the encoding rather than written as `null`.

use vstd::prelude::*;
use vstd::string::StrSliceExecFns;
use vstd::string::StringExecFns;
use crate::completions::Choice;
use crate::completions::CompletionPrompt;
use crate::completions::CreateCompletionRequest;
use crate::completions::CreateCompletionResponse;
use crate::completions::LogProbs;
use crate::completions::StopWords;
use crate::completions::Usage;
use crate::completions::ValidationError;
use crate::completions::spec_validate;
use crate::text::join_comma;
use crate::text::jstr;
use crate::text::lemma_join_comma_snoc;
use crate::text::push_i32;
use crate::text::push_i64;
use crate::text::push_json_string;
use crate::text::spec_int_text;

verus! {

/// JSON text of a boolean.
pub open spec fn json_bool(b: bool) -> Seq<char> {
    if b {
        "true"@
    } else {
        "false"@
    }
}

/// The JSON string literals of a sequence of strings.
pub open spec fn jstr_items(v: Seq<String>) -> Seq<Seq<char>> {
    Seq::new(v.len(), |k: int| jstr(v[k]@))
}

/// JSON array of string literals.
pub open spec fn json_string_array(v: Seq<String>) -> Seq<char> {
    seq!['['] + join_comma(jstr_items(v)) + seq![']']
}

/// The decimal texts of a sequence of integers.
pub open spec fn int_items(v: Seq<i64>) -> Seq<Seq<char>> {
    Seq::new(v.len(), |k: int| spec_int_text(v[k] as int))
}

/// JSON array of integers.
pub open spec fn json_i64_array(v: Seq<i64>) -> Seq<char> {
    seq!['['] + join_comma(int_items(v)) + seq![']']
}

/// The JSON arrays of a sequence of integer lists.
pub open spec fn int_array_items(v: Seq<Vec<i64>>) -> Seq<Seq<char>> {
    Seq::new(v.len(), |k: int| json_i64_array(v[k]@))
}

/// JSON array of integer arrays.
pub open spec fn json_i64_array_array(v: Seq<Vec<i64>>) -> Seq<char> {
    seq!['['] + join_comma(int_array_items(v)) + seq![']']
}

/// The members of the logit-bias object: each token id, quoted as a JSON
/// object key, with the decimal text of its bias spliced verbatim.
pub open spec fn bias_items(v: Seq<(i64, String)>) -> Seq<Seq<char>> {
    Seq::new(v.len(), |k: int| seq!['"'] + spec_int_text(v[k].0 as int) + "\":"@ + v[k].1@)
}

/// JSON object mapping token ids to bias values.
pub open spec fn json_logit_bias(v: Seq<(i64, String)>) -> Seq<char> {
    seq!['{'] + join_comma(bias_items(v)) + seq!['}']
}

/// A JSON object assembled from members that each start with a comma: the
/// leading comma of the first member is dropped.
pub open spec fn json_object_from_fields(fields: Seq<char>) -> Seq<char> {
    if fields.len() == 0 {
        "{}"@
    } else {
        seq!['{'] + fields.skip(1) + seq!['}']
    }
}

/// The populated members of the prompt object, each preceded by a comma.
pub open spec fn prompt_fields(p: &CompletionPrompt) -> Seq<char> {
    (if p.prompt_text is Some {
        ",\"prompt_text\":"@ + jstr(p.prompt_text->0@)
    } else {
        Seq::<char>::empty()
    }) + (if p.prompt_texts is Some {
        ",\"prompt_texts\":"@ + json_string_array(p.prompt_texts->0@)
    } else {
        Seq::<char>::empty()
    }) + (if p.prompt_list is Some {
        ",\"prompt_list\":"@ + json_i64_array(p.prompt_list->0@)
    } else {
        Seq::<char>::empty()
    }) + (if p.prompt_lists is Some {
        ",\"prompt_lists\":"@ + json_i64_array_array(p.prompt_lists->0@)
    } else {
        Seq::<char>::empty()
    })
}

/// JSON object of a prompt: only the populated shapes appear.
pub open spec fn json_prompt(p: &CompletionPrompt) -> Seq<char> {
    json_object_from_fields(prompt_fields(p))
}

/// The populated members of the stop object, each preceded by a comma.
pub open spec fn stop_fields(s: &StopWords) -> Seq<char> {
    (if s.stop_word is Some {
        ",\"stop_word\":"@ + jstr(s.stop_word->0@)
    } else {
        Seq::<char>::empty()
    }) + (if s.stop_words is Some {
        ",\"stop_words\":"@ + json_string_array(s.stop_words->0@)
    } else {
        Seq::<char>::empty()
    })
}

/// JSON object of the stop field: only the populated shapes appear.
pub open spec fn json_stop(s: &StopWords) -> Seq<char> {
    json_object_from_fields(stop_fields(s))
}

fn push_bool(out: &mut String, b: bool)
    ensures
        final(out)@ == old(out)@ + json_bool(b),
{
    if b {
        out.append("true");
    } else {
        out.append("false");
    }
}

fn push_string_array(out: &mut String, v: &Vec<String>)
    ensures
        final(out)@ == old(out)@ + json_string_array(v@),
{
    let ghost orig: Seq<char> = out@;
    proof {
        reveal_strlit("[");
    }
    out.append("[");
    proof {
        assert("["@ =~= seq!['[']);
        assert(jstr_items(v@.subrange(0, 0)) =~= Seq::<Seq<char>>::empty());
    }
    let mut i: usize = 0;
    while i < v.len()
        invariant
            i <= v@.len(),
            out@ == orig + seq!['['] + join_comma(jstr_items(v@.subrange(0, i as int))),
        decreases v@.len() - i,
    {
        let ghost items = jstr_items(v@.subrange(0, i as int));
        if i > 0 {
            proof {
                reveal_strlit(",");
            }
            out.append(",");
            proof {
                assert(","@ =~= seq![',']);
            }
        }
        push_json_string(out, v[i].as_str());
        proof {
            lemma_join_comma_snoc(items, jstr(v@[i as int]@));
            assert(jstr_items(v@.subrange(0, i as int + 1)) =~= items.push(jstr(v@[i as int]@)));
            assert(items.len() == i as int);
            assert(out@ =~= orig + seq!['['] + join_comma(jstr_items(v@.subrange(0, i as int + 1))));
        }
        i = i + 1;
    }
    proof {
        reveal_strlit("]");
    }
    out.append("]");
    proof {
        assert("]"@ =~= seq![']']);
        assert(v@.subrange(0, v@.len() as int) =~= v@);
        assert(out@ =~= orig + json_string_array(v@));
    }
}

fn push_i64_array(out: &mut String, v: &Vec<i64>)
    ensures
        final(out)@ == old(out)@ + json_i64_array(v@),
{
    let ghost orig: Seq<char> = out@;
    proof {
        reveal_strlit("[");
    }
    out.append("[");
    proof {
        assert("["@ =~= seq!['[']);
        assert(int_items(v@.subrange(0, 0)) =~= Seq::<Seq<char>>::empty());
    }
    let mut i: usize = 0;
    while i < v.len()
        invariant
            i <= v@.len(),
            out@ == orig + seq!['['] + join_comma(int_items(v@.subrange(0, i as int))),
        decreases v@.len() - i,
    {
        let ghost items = int_items(v@.subrange(0, i as int));
        if i > 0 {
            proof {
                reveal_strlit(",");
            }
            out.append(",");
            proof {
                assert(","@ =~= seq![',']);
            }
        }
        push_i64(out, v[i]);
        proof {
            lemma_join_comma_snoc(items, spec_int_text(v@[i as int] as int));
            assert(int_items(v@.subrange(0, i as int + 1)) =~= items.push(
                spec_int_text(v@[i as int] as int),
            ));
            assert(items.len() == i as int);
            assert(out@ =~= orig + seq!['['] + join_comma(int_items(v@.subrange(0, i as int + 1))));
        }
        i = i + 1;
    }
    proof {
        reveal_strlit("]");
    }
    out.append("]");
    proof {
        assert("]"@ =~= seq![']']);
        assert(v@.subrange(0, v@.len() as int) =~= v@);
        assert(out@ =~= orig + json_i64_array(v@));
    }
}

fn push_i64_array_array(out: &mut String, v: &Vec<Vec<i64>>)
    ensures
        final(out)@ == old(out)@ + json_i64_array_array(v@),
{
    let ghost orig: Seq<char> = out@;
    proof {
        reveal_strlit("[");
    }
    out.append("[");
    proof {
        assert("["@ =~= seq!['[']);
        assert(int_array_items(v@.subrange(0, 0)) =~= Seq::<Seq<char>>::empty());
    }
    let mut i: usize = 0;
    while i < v.len()
        invariant
            i <= v@.len(),
            out@ == orig + seq!['['] + join_comma(int_array_items(v@.subrange(0, i as int))),
        decreases v@.len() - i,
    {
        let ghost items = int_array_items(v@.subrange(0, i as int));
        if i > 0 {
            proof {
                reveal_strlit(",");
            }
            out.append(",");
            proof {
                assert(","@ =~= seq![',']);
            }
        }
        push_i64_array(out, &v[i]);
        proof {
            lemma_join_comma_snoc(items, json_i64_array(v@[i as int]@));
            assert(int_array_items(v@.subrange(0, i as int + 1)) =~= items.push(
                json_i64_array(v@[i as int]@),
            ));
            assert(items.len() == i as int);
            assert(out@ =~= orig + seq!['['] + join_comma(
                int_array_items(v@.subrange(0, i as int + 1)),
            ));
        }
        i = i + 1;
    }
    proof {
        reveal_strlit("]");
    }
    out.append("]");
    proof {
        assert("]"@ =~= seq![']']);
        assert(v@.subrange(0, v@.len() as int) =~= v@);
        assert(out@ =~= orig + json_i64_array_array(v@));
    }
}

fn push_logit_bias(out: &mut String, v: &Vec<(i64, String)>)
    ensures
        final(out)@ == old(out)@ + json_logit_bias(v@),
{
    let ghost orig: Seq<char> = out@;
    proof {
        reveal_strlit("{");
    }
    out.append("{");
    proof {
        assert("{"@ =~= seq!['{']);
        assert(bias_items(v@.subrange(0, 0)) =~= Seq::<Seq<char>>::empty());
    }
    let mut i: usize = 0;
    while i < v.len()
        invariant
            i <= v@.len(),
            out@ == orig + seq!['{'] + join_comma(bias_items(v@.subrange(0, i as int))),
        decreases v@.len() - i,
    {
        let ghost items = bias_items(v@.subrange(0, i as int));
        if i > 0 {
            proof {
                reveal_strlit(",");
            }
            out.append(",");
            proof {
                assert(","@ =~= seq![',']);
            }
        }
        proof {
            reveal_strlit("\"");
        }
        out.append("\"");
        proof {
            assert("\""@ =~= seq!['"']);
        }
        let entry = &v[i];
        push_i64(out, entry.0);
        out.append("\":");
        out.append(entry.1.as_str());
        proof {
            let item = seq!['"'] + spec_int_text(v@[i as int].0 as int) + "\":"@ + v@[i as int].1@;
            lemma_join_comma_snoc(items, item);
            assert(bias_items(v@.subrange(0, i as int + 1)) =~= items.push(item));
            assert(items.len() == i as int);
            assert(out@ =~= orig + seq!['{'] + join_comma(bias_items(v@.subrange(0, i as int + 1))));
        }
        i = i + 1;
    }
    proof {
        reveal_strlit("}");
    }
    out.append("}");
    proof {
        assert("}"@ =~= seq!['}']);
        assert(v@.subrange(0, v@.len() as int) =~= v@);
        assert(out@ =~= orig + json_logit_bias(v@));
    }
}

fn push_object_from_fields(out: &mut String, fields: &String)
    ensures
        final(out)@ == old(out)@ + json_object_from_fields(fields@),
{
    let len = fields.as_str().unicode_len();
    if len == 0 {
        out.append("{}");
    } else {
        proof {
            reveal_strlit("{");
            reveal_strlit("}");
        }
        out.append("{");
        out.append(fields.as_str().substring_char(1, len));
        out.append("}");
        proof {
            assert("{"@ =~= seq!['{']);
            assert("}"@ =~= seq!['}']);
            assert(fields@.subrange(1, len as int) =~= fields@.skip(1));
            assert(out@ =~= old(out)@ + json_object_from_fields(fields@));
        }
    }
}

fn push_prompt(out: &mut String, p: &CompletionPrompt)
    ensures
        final(out)@ == old(out)@ + json_prompt(p),
{
    let mut fields = String::new();
    if let Some(text) = &p.prompt_text {
        fields.append(",\"prompt_text\":");
        push_json_string(&mut fields, text.as_str());
    }
    if let Some(texts) = &p.prompt_texts {
        fields.append(",\"prompt_texts\":");
        push_string_array(&mut fields, texts);
    }
    if let Some(list) = &p.prompt_list {
        fields.append(",\"prompt_list\":");
        push_i64_array(&mut fields, list);
    }
    if let Some(lists) = &p.prompt_lists {
        fields.append(",\"prompt_lists\":");
        push_i64_array_array(&mut fields, lists);
    }
    proof {
        assert(fields@ =~= prompt_fields(p));
    }
    push_object_from_fields(out, &fields);
}

fn push_stop(out: &mut String, s: &StopWords)
    ensures
        final(out)@ == old(out)@ + json_stop(s),
{
    let mut fields = String::new();
    if let Some(word) = &s.stop_word {
        fields.append(",\"stop_word\":");
        push_json_string(&mut fields, word.as_str());
    }
    if let Some(words) = &s.stop_words {
        fields.append(",\"stop_words\":");
        push_string_array(&mut fields, words);
    }
    proof {
        assert(fields@ =~= stop_fields(s));
    }
    push_object_from_fields(out, &fields);
}

/// The texts of a sequence of numbers carried as decimal text, spliced
/// verbatim.
pub open spec fn raw_items(v: Seq<String>) -> Seq<Seq<char>> {
    Seq::new(v.len(), |k: int| v[k]@)
}

/// JSON array of numbers carried as decimal text.
pub open spec fn json_raw_array(v: Seq<String>) -> Seq<char> {
    seq!['['] + join_comma(raw_items(v)) + seq![']']
}

/// The members of one per-token candidate map: each candidate token, quoted,
/// with the decimal text of its log-probability.
pub open spec fn top_members(v: Seq<(String, String)>) -> Seq<Seq<char>> {
    Seq::new(v.len(), |k: int| jstr(v[k].0@) + seq![':'] + v[k].1@)
}

/// JSON object of one per-token candidate map.
pub open spec fn json_top_object(v: Seq<(String, String)>) -> Seq<char> {
    seq!['{'] + join_comma(top_members(v)) + seq!['}']
}

/// The JSON objects of a sequence of candidate maps.
pub open spec fn top_items(v: Seq<Vec<(String, String)>>) -> Seq<Seq<char>> {
    Seq::new(v.len(), |k: int| json_top_object(v[k]@))
}

/// JSON array of candidate maps.
pub open spec fn json_top_array(v: Seq<Vec<(String, String)>>) -> Seq<char> {
    seq!['['] + join_comma(top_items(v)) + seq![']']
}

/// The JSON object of a [`LogProbs`] record.
pub open spec fn json_log_probs(lp: LogProbs) -> Seq<char> {
    "{\"tokens\":"@ + json_string_array(lp.tokens@) + ",\"token_log_probs\":"@ + json_raw_array(
        lp.token_log_probs@,
    ) + ",\"top_log_probs\":"@ + json_top_array(lp.top_log_probs@) + ",\"text_offset\":"@
        + json_i64_array(lp.text_offset@) + seq!['}']
}

/// The JSON object of a [`Choice`]: an absent log-probability detail is
/// omitted, not written as `null`.
pub open spec fn json_choice(c: Choice) -> Seq<char> {
    "{\"text\":"@ + jstr(c.text@) + ",\"index\":"@ + spec_int_text(c.index as int) + (if c.log_probs
        is Some {
        ",\"log_probs\":"@ + json_log_probs(c.log_probs->0)
    } else {
        Seq::<char>::empty()
    }) + ",\"finish_reason\":"@ + jstr(c.finish_reason@) + seq!['}']
}

/// The JSON objects of a sequence of choices.
pub open spec fn choice_items(v: Seq<Choice>) -> Seq<Seq<char>> {
    Seq::new(v.len(), |k: int| json_choice(v[k]))
}

/// JSON array of choices.
pub open spec fn json_choice_array(v: Seq<Choice>) -> Seq<char> {
    seq!['['] + join_comma(choice_items(v)) + seq![']']
}

/// The JSON object of a [`Usage`] record.
pub open spec fn json_usage(u: Usage) -> Seq<char> {
    "{\"prompt_tokens\":"@ + spec_int_text(u.prompt_tokens as int) + ",\"completed_tokens\":"@
        + spec_int_text(u.completed_tokens as int) + ",\"total_tokens\":"@ + spec_int_text(
        u.total_tokens as int,
    ) + seq!['}']
}

/// The complete JSON body of a response, as the service would send it back.
pub open spec fn json_response(r: CreateCompletionResponse) -> Seq<char> {
    "{\"id\":"@ + jstr(r.id@) + ",\"object\":"@ + jstr(r.object@) + ",\"created\":"@
        + spec_int_text(r.created as int) + ",\"model\":"@ + jstr(r.model@) + ",\"choices\":"@
        + json_choice_array(r.choices@) + ",\"usage\":"@ + json_usage(r.usage) + seq!['}']
}

fn push_raw_array(out: &mut String, v: &Vec<String>)
    ensures
        final(out)@ == old(out)@ + json_raw_array(v@),
{
    let ghost orig: Seq<char> = out@;
    proof {
        reveal_strlit("[");
    }
    out.append("[");
    proof {
        assert("["@ =~= seq!['[']);
        assert(raw_items(v@.subrange(0, 0)) =~= Seq::<Seq<char>>::empty());
    }
    let mut i: usize = 0;
    while i < v.len()
        invariant
            i <= v@.len(),
            out@ == orig + seq!['['] + join_comma(raw_items(v@.subrange(0, i as int))),
        decreases v@.len() - i,
    {
        let ghost items = raw_items(v@.subrange(0, i as int));
        if i > 0 {
            proof {
                reveal_strlit(",");
            }
            out.append(",");
            proof {
                assert(","@ =~= seq![',']);
            }
        }
        out.append(v[i].as_str());
        proof {
            lemma_join_comma_snoc(items, v@[i as int]@);
            assert(raw_items(v@.subrange(0, i as int + 1)) =~= items.push(v@[i as int]@));
            assert(items.len() == i as int);
            assert(out@ =~= orig + seq!['['] + join_comma(raw_items(v@.subrange(0, i as int + 1))));
        }
        i = i + 1;
    }
    proof {
        reveal_strlit("]");
    }
    out.append("]");
    proof {
        assert("]"@ =~= seq![']']);
        assert(v@.subrange(0, v@.len() as int) =~= v@);
        assert(out@ =~= orig + json_raw_array(v@));
    }
}

fn push_top_object(out: &mut String, v: &Vec<(String, String)>)
    ensures
        final(out)@ == old(out)@ + json_top_object(v@),
{
    let ghost orig: Seq<char> = out@;
    proof {
        reveal_strlit("{");
    }
    out.append("{");
    proof {
        assert("{"@ =~= seq!['{']);
        assert(top_members(v@.subrange(0, 0)) =~= Seq::<Seq<char>>::empty());
    }
    let mut i: usize = 0;
    while i < v.len()
        invariant
            i <= v@.len(),
            out@ == orig + seq!['{'] + join_comma(top_members(v@.subrange(0, i as int))),
        decreases v@.len() - i,
    {
        let ghost items = top_members(v@.subrange(0, i as int));
        if i > 0 {
            proof {
                reveal_strlit(",");
            }
            out.append(",");
            proof {
                assert(","@ =~= seq![',']);
            }
        }
        let entry = &v[i];
        push_json_string(out, entry.0.as_str());
        proof {
            reveal_strlit(":");
        }
        out.append(":");
        proof {
            assert(":"@ =~= seq![':']);
        }
        out.append(entry.1.as_str());
        proof {
            let item = jstr(v@[i as int].0@) + seq![':'] + v@[i as int].1@;
            lemma_join_comma_snoc(items, item);
            assert(top_members(v@.subrange(0, i as int + 1)) =~= items.push(item));
            assert(items.len() == i as int);
            assert(out@ =~= orig + seq!['{'] + join_comma(
                top_members(v@.subrange(0, i as int + 1)),
            ));
        }
        i = i + 1;
    }
    proof {
        reveal_strlit("}");
    }
    out.append("}");
    proof {
        assert("}"@ =~= seq!['}']);
        assert(v@.subrange(0, v@.len() as int) =~= v@);
        assert(out@ =~= orig + json_top_object(v@));
    }
}

fn push_top_array(out: &mut String, v: &Vec<Vec<(String, String)>>)
    ensures
        final(out)@ == old(out)@ + json_top_array(v@),
{
    let ghost orig: Seq<char> = out@;
    proof {
        reveal_strlit("[");
    }
    out.append("[");
    proof {
        assert("["@ =~= seq!['[']);
        assert(top_items(v@.subrange(0, 0)) =~= Seq::<Seq<char>>::empty());
    }
    let mut i: usize = 0;
    while i < v.len()
        invariant
            i <= v@.len(),
            out@ == orig + seq!['['] + join_comma(top_items(v@.subrange(0, i as int))),
        decreases v@.len() - i,
    {
        let ghost items = top_items(v@.subrange(0, i as int));
        if i > 0 {
            proof {
                reveal_strlit(",");
            }
            out.append(",");
            proof {
                assert(","@ =~= seq![',']);
            }
        }
        push_top_object(out, &v[i]);
        proof {
            lemma_join_comma_snoc(items, json_top_object(v@[i as int]@));
            assert(top_items(v@.subrange(0, i as int + 1)) =~= items.push(
                json_top_object(v@[i as int]@),
            ));
            assert(items.len() == i as int);
            assert(out@ =~= orig + seq!['['] + join_comma(top_items(v@.subrange(0, i as int + 1))));
        }
        i = i + 1;
    }
    proof {
        reveal_strlit("]");
    }
    out.append("]");
    proof {
        assert("]"@ =~= seq![']']);
        assert(v@.subrange(0, v@.len() as int) =~= v@);
        assert(out@ =~= orig + json_top_array(v@));
    }
}

fn push_log_probs(out: &mut String, lp: &LogProbs)
    ensures
        final(out)@ == old(out)@ + json_log_probs(*lp),
{
    out.append("{\"tokens\":");
    push_string_array(out, &lp.tokens);
    out.append(",\"token_log_probs\":");
    push_raw_array(out, &lp.token_log_probs);
    out.append(",\"top_log_probs\":");
    push_top_array(out, &lp.top_log_probs);
    out.append(",\"text_offset\":");
    push_i64_array(out, &lp.text_offset);
    proof {
        reveal_strlit("}");
    }
    out.append("}");
    proof {
        assert("}"@ =~= seq!['}']);
        assert(out@ =~= old(out)@ + json_log_probs(*lp));
    }
}

fn push_choice(out: &mut String, c: &Choice)
    ensures
        final(out)@ == old(out)@ + json_choice(*c),
{
    out.append("{\"text\":");
    push_json_string(out, c.text.as_str());
    out.append(",\"index\":");
    push_i32(out, c.index);
    if let Some(lp) = &c.log_probs {
        out.append(",\"log_probs\":");
        push_log_probs(out, lp);
    }
    out.append(",\"finish_reason\":");
    push_json_string(out, c.finish_reason.as_str());
    proof {
        reveal_strlit("}");
    }
    out.append("}");
    proof {
        assert("}"@ =~= seq!['}']);
        assert(out@ =~= old(out)@ + json_choice(*c));
    }
}

fn push_choice_array(out: &mut String, v: &Vec<Choice>)
    ensures
        final(out)@ == old(out)@ + json_choice_array(v@),
{
    let ghost orig: Seq<char> = out@;
    proof {
        reveal_strlit("[");
    }
    out.append("[");
    proof {
        assert("["@ =~= seq!['[']);
        assert(choice_items(v@.subrange(0, 0)) =~= Seq::<Seq<char>>::empty());
    }
    let mut i: usize = 0;
    while i < v.len()
        invariant
            i <= v@.len(),
            out@ == orig + seq!['['] + join_comma(choice_items(v@.subrange(0, i as int))),
        decreases v@.len() - i,
    {
        let ghost items = choice_items(v@.subrange(0, i as int));
        if i > 0 {
            proof {
                reveal_strlit(",");
            }
            out.append(",");
            proof {
                assert(","@ =~= seq![',']);
            }
        }
        push_choice(out, &v[i]);
        proof {
            lemma_join_comma_snoc(items, json_choice(v@[i as int]));
            assert(choice_items(v@.subrange(0, i as int + 1)) =~= items.push(
                json_choice(v@[i as int]),
            ));
            assert(items.len() == i as int);
            assert(out@ =~= orig + seq!['['] + join_comma(
                choice_items(v@.subrange(0, i as int + 1)),
            ));
        }
        i = i + 1;
    }
    proof {
        reveal_strlit("]");
    }
    out.append("]");
    proof {
        assert("]"@ =~= seq![']']);
        assert(v@.subrange(0, v@.len() as int) =~= v@);
        assert(out@ =~= orig + json_choice_array(v@));
    }
}

fn push_usage(out: &mut String, u: &Usage)
    ensures
        final(out)@ == old(out)@ + json_usage(*u),
{
    out.append("{\"prompt_tokens\":");
    push_i32(out, u.prompt_tokens);
    out.append(",\"completed_tokens\":");
    push_i32(out, u.completed_tokens);
    out.append(",\"total_tokens\":");
    push_i32(out, u.total_tokens);
    proof {
        reveal_strlit("}");
    }
    out.append("}");
    proof {
        assert("}"@ =~= seq!['}']);
        assert(out@ =~= old(out)@ + json_usage(*u));
    }
}

/// Encodes a response as its JSON body, exactly as [`json_response`] lays it
/// out: what the service's own encoder would produce for this value.
pub fn serialize_response(r: &CreateCompletionResponse) -> (body: String)
    ensures
        body@ == json_response(*r),
{
    let mut out = String::new();
    out.append("{\"id\":");
    push_json_string(&mut out, r.id.as_str());
    out.append(",\"object\":");
    push_json_string(&mut out, r.object.as_str());
    out.append(",\"created\":");
    push_i64(&mut out, r.created);
    out.append(",\"model\":");
    push_json_string(&mut out, r.model.as_str());
    out.append(",\"choices\":");
    push_choice_array(&mut out, &r.choices);
    out.append(",\"usage\":");
    push_usage(&mut out, &r.usage);
    proof {
        reveal_strlit("}");
    }
    out.append("}");
    proof {
        assert("}"@ =~= seq!['}']);
        assert(out@ =~= json_response(*r));
    }
    out
}

/// The complete JSON body of a request. The members stand in the order of the
/// request's fields; the sampling parameters held as decimal text are spliced
/// verbatim.
pub open spec fn json_request(r: &CreateCompletionRequest) -> Seq<char> {
    "{\"model\":"@ + jstr(r.model@) + ",\"prompt\":"@ + json_prompt(&r.prompt) + ",\"suffix\":"@
        + jstr(r.suffix@) + ",\"max_tokens\":"@ + spec_int_text(r.max_tokens as int)
        + ",\"temperature\":"@ + r.temperature@ + ",\"top_p\":"@ + r.top_p@ + ",\"n\":"@
        + spec_int_text(r.n as int) + ",\"stream\":"@ + json_bool(r.stream) + ",\"logprobs\":"@
        + spec_int_text(r.logprobs as int) + ",\"echo\":"@ + json_bool(r.echo) + ",\"stop\":"@
        + json_stop(&r.stop) + ",\"presence_penalty\":"@ + r.presence_penalty@
        + ",\"frequency_penalty\":"@ + r.frequency_penalty@ + ",\"best_of\":"@
        + spec_int_text(r.best_of as int) + ",\"logit_bias\":"@ + json_logit_bias(r.logit_bias@)
        + ",\"user\":"@ + jstr(r.user@) + seq!['}']
}

/// Encodes a request as its JSON body, exactly as [`json_request`] lays it
/// out. Unpopulated prompt and stop shapes are omitted.
pub fn serialize_request(r: &CreateCompletionRequest) -> (body: String)
    ensures
        body@ == json_request(r),
{
    let mut out = String::new();
    out.append("{\"model\":");
    push_json_string(&mut out, r.model.as_str());
    out.append(",\"prompt\":");
    push_prompt(&mut out, &r.prompt);
    out.append(",\"suffix\":");
    push_json_string(&mut out, r.suffix.as_str());
    out.append(",\"max_tokens\":");
    push_i32(&mut out, r.max_tokens);
    out.append(",\"temperature\":");
    out.append(r.temperature.as_str());
    out.append(",\"top_p\":");
    out.append(r.top_p.as_str());
    out.append(",\"n\":");
    push_i32(&mut out, r.n);
    out.append(",\"stream\":");
    push_bool(&mut out, r.stream);
    out.append(",\"logprobs\":");
    push_i32(&mut out, r.logprobs);
    out.append(",\"echo\":");
    push_bool(&mut out, r.echo);
    out.append(",\"stop\":");
    push_stop(&mut out, &r.stop);
    out.append(",\"presence_penalty\":");
    out.append(r.presence_penalty.as_str());
    out.append(",\"frequency_penalty\":");
    out.append(r.frequency_penalty.as_str());
    out.append(",\"best_of\":");
    push_i32(&mut out, r.best_of);
    out.append(",\"logit_bias\":");
    push_logit_bias(&mut out, &r.logit_bias);
    out.append(",\"user\":");
    push_json_string(&mut out, r.user.as_str());
    proof {
        reveal_strlit("}");
    }
    out.append("}");
    proof {
        assert("}"@ =~= seq!['}']);
        assert(out@ =~= json_request(r));
    }
    out
}

/// Validates a request and, when it passes, encodes it for dispatch: the one
/// entry point a caller needs before handing the body to a transport. The
/// body is produced exactly when validation succeeds, and the error of a
/// failing request is exactly the validator's.
pub fn prepare_request(r: &CreateCompletionRequest) -> (res: Result<String, ValidationError>)
    ensures
        res is Ok <==> spec_validate(r) is Ok,
        res is Ok ==> res->Ok_0@ == json_request(r),
        res is Err ==> spec_validate(r) == Err::<(), ValidationError>(res->Err_0),
{
    match r.validate() {
        Ok(()) => Ok(serialize_request(r)),
        Err(e) => Err(e),
    }
}

} // verus!
