//! Answers from a cloud provider that the user brings a key for.
use vstd::prelude::*;
use crate::brand::Brand;
use crate::error::AppError;
use crate::error;
use crate::json::Json;
use crate::json::JsonModel;
use crate::json;
use crate::text;

verus! {

broadcast use vstd::string::group_string_axioms;

/// A provider the user can bring a key for.
#[derive(Clone, Copy, Debug, PartialEq, Eq, Structural)]
pub enum CloudProvider {
    Anthropic,
    OpenAi,
}

/// The provider of that name, whatever its case and the white space around it.
pub open spec fn provider_named(s: Seq<char>) -> Option<CloudProvider> {
    let t = text::lowercase(text::trimmed(s));
    if t == "anthropic"@ {
        Some(CloudProvider::Anthropic)
    } else if t == "openai"@ {
        Some(CloudProvider::OpenAi)
    } else {
        None
    }
}

/// The model that is called where none was named.
pub open spec fn default_model_of(p: CloudProvider, brand: Brand) -> Seq<char> {
    match p {
        CloudProvider::Anthropic => brand.lower() + "-3-5-haiku-latest"@,
        CloudProvider::OpenAi => "gpt-4o-mini"@,
    }
}

impl CloudProvider {
    /// The provider of that name, whatever its case.
    pub fn parse(s: &str) -> (r: Option<CloudProvider>)
        ensures
            r == provider_named(s@),
    {
        let t = text::to_lowercase(text::trim(s));
        if text::same(t.as_str(), "anthropic") {
            Some(CloudProvider::Anthropic)
        } else if text::same(t.as_str(), "openai") {
            Some(CloudProvider::OpenAi)
        } else {
            None
        }
    }

    /// The model that is called where none was named.
    pub fn default_model(&self, brand: &Brand) -> (r: String)
        ensures
            r@ == default_model_of(*self, *brand),
    {
        match self {
            CloudProvider::Anthropic => brand.before("-3-5-haiku-latest"),
            CloudProvider::OpenAi => "gpt-4o-mini".to_owned(),
        }
    }
}

/// A provider, the key for it, and the model to call.
#[derive(Debug, PartialEq, Eq)]
pub struct CloudConfig {
    pub provider: CloudProvider,
    pub api_key: String,
    pub model: String,
}

// ---------------------------------------------------------------------------
// The request
// ---------------------------------------------------------------------------

/// The prompt as a conversation of one message.
pub open spec fn one_message(prompt: Seq<char>) -> JsonModel {
    JsonModel::Array(
        seq![
            JsonModel::Object(
                Map::empty().insert("role"@, JsonModel::Str("user"@)).insert(
                    "content"@,
                    JsonModel::Str(prompt),
                ),
            ),
        ],
    )
}

/// What Anthropic is sent.
pub open spec fn anthropic_model(model: Seq<char>, prompt: Seq<char>) -> JsonModel {
    JsonModel::Object(
        Map::empty().insert("model"@, JsonModel::Str(model)).insert(
            "max_tokens"@,
            JsonModel::Int(1024),
        ).insert("messages"@, one_message(prompt)),
    )
}

/// What OpenAI is sent.
pub open spec fn openai_model(model: Seq<char>, prompt: Seq<char>) -> JsonModel {
    JsonModel::Object(
        Map::empty().insert("model"@, JsonModel::Str(model)).insert(
            "messages"@,
            one_message(prompt),
        ),
    )
}

fn messages(prompt: &str) -> (r: Json)
    ensures
        r.model() == one_message(prompt@),
{
    json::array1(json::object2("role", json::string("user"), "content", json::string(prompt)))
}

/// The body of an Anthropic request, which must say how many tokens it may take.
pub fn anthropic_body(model: &str, prompt: &str) -> (r: Json)
    ensures
        r.model() == anthropic_model(model@, prompt@),
{
    json::object3(
        "model",
        json::string(model),
        "max_tokens",
        Json::Int(1024),
        "messages",
        messages(prompt),
    )
}

/// The body of an OpenAI request.
pub fn openai_body(model: &str, prompt: &str) -> (r: Json)
    ensures
        r.model() == openai_model(model@, prompt@),
{
    json::object2("model", json::string(model), "messages", messages(prompt))
}

/// A request: where it goes, its headers and its body.
#[derive(Debug, PartialEq, Eq)]
pub struct CloudRequest {
    pub url: String,
    pub headers: Vec<(String, String)>,
    pub body: Json,
}

/// The headers, as names and values.
pub open spec fn header_texts(h: Seq<(String, String)>) -> Seq<(Seq<char>, Seq<char>)> {
    h.map_values(|p: (String, String)| (p.0@, p.1@))
}

/// The request that asks the provider for an answer to a prompt.
pub fn request(config: &CloudConfig, prompt: &str) -> (r: CloudRequest)
    ensures
        match config.provider {
            CloudProvider::Anthropic => {
                &&& r.url@ == "https://api.anthropic.com/v1/messages"@
                &&& header_texts(r.headers@) == seq![
                    ("x-api-key"@, config.api_key@),
                    ("anthropic-version"@, "2023-06-01"@),
                ]
                &&& r.body.model() == anthropic_model(config.model@, prompt@)
            },
            CloudProvider::OpenAi => {
                &&& r.url@ == "https://api.openai.com/v1/chat/completions"@
                &&& header_texts(r.headers@) == seq![
                    ("authorization"@, "Bearer "@ + config.api_key@),
                ]
                &&& r.body.model() == openai_model(config.model@, prompt@)
            },
        },
{
    match config.provider {
        CloudProvider::Anthropic => {
            let key = ("x-api-key".to_owned(), config.api_key.clone());
            let version = ("anthropic-version".to_owned(), "2023-06-01".to_owned());
            let headers: Vec<(String, String)> = vec![key, version];
            assert(header_texts(headers@) =~= seq![
                ("x-api-key"@, config.api_key@),
                ("anthropic-version"@, "2023-06-01"@),
            ]);
            CloudRequest {
                url: "https://api.anthropic.com/v1/messages".to_owned(),
                headers,
                body: anthropic_body(config.model.as_str(), prompt),
            }
        },
        CloudProvider::OpenAi => {
            let mut bearer = "Bearer ".to_owned();
            bearer.append(config.api_key.as_str());
            let key = ("authorization".to_owned(), bearer);
            let headers: Vec<(String, String)> = vec![key];
            assert(header_texts(headers@) =~= seq![
                ("authorization"@, "Bearer "@ + config.api_key@),
            ]);
            CloudRequest {
                url: "https://api.openai.com/v1/chat/completions".to_owned(),
                headers,
                body: openai_body(config.model.as_str(), prompt),
            }
        },
    }
}

// ---------------------------------------------------------------------------
// The answer
// ---------------------------------------------------------------------------

/// A block of an Anthropic answer.
#[derive(Debug, PartialEq, Eq)]
pub struct AnthropicBlock {
    pub text: String,
}

/// An Anthropic answer.
#[derive(Debug, PartialEq, Eq)]
pub struct AnthropicResponse {
    pub content: Vec<AnthropicBlock>,
}

/// A choice of an OpenAI answer.
#[derive(Debug, PartialEq, Eq)]
pub struct OpenAiChoice {
    /// What its message says.
    pub content: String,
}

/// An OpenAI answer.
#[derive(Debug, PartialEq, Eq)]
pub struct OpenAiResponse {
    pub choices: Vec<OpenAiChoice>,
}

/// The text of all the blocks.
pub open spec fn block_text(blocks: Seq<AnthropicBlock>) -> Seq<char>
    decreases blocks.len(),
{
    if blocks.len() == 0 {
        Seq::empty()
    } else {
        block_text(blocks.drop_last()) + blocks.last().text@
    }
}

/// The answer that Anthropic gave: the text of its blocks, or an error where
/// that is blank or the response could not be read.
pub fn parse_anthropic_answer(parsed: Result<AnthropicResponse, String>) -> (r: Result<
    String,
    AppError,
>)
    ensures
        match parsed {
            Err(e) => r matches Err(f) && f.text() == "parse Anthropic response: "@ + e@,
            Ok(a) => if text::trimmed(block_text(a.content@)).len() == 0 {
                r matches Err(f) && f.text() == "Anthropic response carried no text"@
            } else {
                r matches Ok(s) && s@ == block_text(a.content@)
            },
        },
{
    let a = match parsed {
        Ok(a) => a,
        Err(e) => {
            return Err(error::message2("parse Anthropic response: ", e.as_str()));
        },
    };
    let mut out = String::new();
    let mut i: usize = 0;
    assert(a.content@.take(0) =~= Seq::<AnthropicBlock>::empty());
    assert(out@ =~= block_text(a.content@.take(0)));
    while i < a.content.len()
        invariant
            i <= a.content.len(),
            out@ == block_text(a.content@.take(i as int)),
        decreases a.content.len() - i,
    {
        assert(a.content@.take(i + 1).drop_last() =~= a.content@.take(i as int));
        assert(a.content@.take(i + 1).last() == a.content@[i as int]);
        out.append(a.content[i].text.as_str());
        i += 1;
    }
    assert(a.content@.take(i as int) =~= a.content@);
    if text::trim(out.as_str()).is_empty() {
        Err(AppError::other("Anthropic response carried no text"))
    } else {
        Ok(out)
    }
}

/// What the first choice says.
pub open spec fn choice_text(choices: Seq<OpenAiChoice>) -> Seq<char> {
    if choices.len() == 0 {
        Seq::empty()
    } else {
        choices[0].content@
    }
}

/// The answer that OpenAI gave: that of its first choice, or an error where that
/// is blank or the response could not be read.
pub fn parse_openai_answer(parsed: Result<OpenAiResponse, String>) -> (r: Result<String, AppError>)
    ensures
        match parsed {
            Err(e) => r matches Err(f) && f.text() == "parse OpenAI response: "@ + e@,
            Ok(a) => if text::trimmed(choice_text(a.choices@)).len() == 0 {
                r matches Err(f) && f.text() == "OpenAI response carried no message content"@
            } else {
                r matches Ok(s) && s@ == choice_text(a.choices@)
            },
        },
{
    let a = match parsed {
        Ok(a) => a,
        Err(e) => {
            return Err(error::message2("parse OpenAI response: ", e.as_str()));
        },
    };
    let out = if a.choices.len() == 0 {
        String::new()
    } else {
        a.choices[0].content.clone()
    };
    assert(a.choices@.len() == 0 ==> out@ =~= Seq::<char>::empty());
    if text::trim(out.as_str()).is_empty() {
        Err(AppError::other("OpenAI response carried no message content"))
    } else {
        Ok(out)
    }
}

/// What the user is told of an answer that is no success: the status, and the
/// beginning of what came with it.
pub fn refused(status: &str, body: &str) -> (r: AppError)
    ensures
        r.text() == "cloud provider returned HTTP "@ + status@ + ": "@ + text::first_chars(
            body@,
            300,
        ),
{
    let mut m = String::from_str("cloud provider returned HTTP ");
    m.append(status);
    m.append(": ");
    m.append(text::take_chars(body, 300));
    AppError::Other(m)
}

/// A provider is named in whatever case and white space, and no other name is one.
pub proof fn law_names_name_their_provider(s: Seq<char>)
    ensures
        provider_named(s) == Some(CloudProvider::Anthropic) <==> text::lowercase(text::trimmed(s))
            == "anthropic"@,
        provider_named(s) == Some(CloudProvider::OpenAi) <==> text::lowercase(text::trimmed(s))
            == "openai"@,
        provider_named(text::trimmed(s)) == provider_named(s),
{
    reveal_strlit("anthropic");
    reveal_strlit("openai");
    assert("anthropic"@.len() == 9);
    assert("openai"@.len() == 6);
    text::lemma_trimmed_twice(s);
}

/// Both providers are asked for the chosen model and sent the prompt, word for word, as
/// the user's one message.
pub proof fn law_requests_carry_the_prompt(model: Seq<char>, prompt: Seq<char>)
    ensures
        ({
            let (a, b) = (anthropic_model(model, prompt), openai_model(model, prompt));
            let said = json::member(a, "messages"@)->0;
            &&& json::text_member(a, "model"@) == Some(model)
            &&& json::text_member(b, "model"@) == Some(model)
            &&& json::member(b, "messages"@) == Some(said)
            &&& said is Array
            &&& said->Array_0.len() == 1
            &&& json::text_member(said->Array_0[0], "role"@) == Some("user"@)
            &&& json::text_member(said->Array_0[0], "content"@) == Some(prompt)
        }),
{
    reveal_strlit("model");
    reveal_strlit("max_tokens");
    reveal_strlit("messages");
    reveal_strlit("role");
    reveal_strlit("content");
    assert("model"@.len() == 5);
    assert("max_tokens"@.len() == 10);
    assert("messages"@.len() == 8);
    assert("role"@.len() == 4);
    assert("content"@.len() == 7);
}

/// An answer in blocks is the text of the blocks, one after the other; of several choices
/// the first is the answer.
pub proof fn law_answers_are_read_in_order(
    blocks: Seq<AnthropicBlock>,
    b: AnthropicBlock,
    choices: Seq<OpenAiChoice>,
)
    ensures
        block_text(blocks.push(b)) == block_text(blocks) + b.text@,
        block_text(Seq::empty()).len() == 0,
        choices.len() > 0 ==> choice_text(choices) == choices[0].content@,
        choices.len() == 0 ==> choice_text(choices).len() == 0,
{
    assert(blocks.push(b).drop_last() =~= blocks);
}

/// Each provider has a model of its own that is asked where none was chosen.
pub proof fn law_each_provider_has_its_model(brand: Brand)
    ensures
        text::begins(default_model_of(CloudProvider::Anthropic, brand), brand.lower()),
        default_model_of(CloudProvider::OpenAi, brand) == "gpt-4o-mini"@,
        default_model_of(CloudProvider::Anthropic, brand) == brand.lower() + "-3-5-haiku-latest"@,
{
    text::law_what_is_taken_off_comes_back(brand.lower(), "-3-5-haiku-latest"@);
}

/// An answer of Anthropic's model may be as long as 1024 tokens.
pub proof fn law_answers_are_limited(model: Seq<char>, prompt: Seq<char>)
    ensures
        json::member(anthropic_model(model, prompt), "max_tokens"@) == Some(JsonModel::Int(1024)),
{
    reveal_strlit("messages");
    reveal_strlit("max_tokens");
    assert("messages"@.len() == 8);
    assert("max_tokens"@.len() == 10);
}

} // verus!
