use chat_relay::json::Json;
use chat_relay::models::{models_result, CommandResult, ModelsReply};
use chat_relay::parse::parse_document;
use chat_relay::title::{chat_message, create_title_body, title_failure, title_result, TitleAnswer, TITLE_PROMPT};

fn text(s: &str) -> Json {
    Json::Text(s.to_string())
}

fn number(s: &str) -> Json {
    Json::Number(s.parse().unwrap())
}

fn object(members: Vec<(&str, Json)>) -> Json {
    Json::Object(members.into_iter().map(|(k, v)| (k.to_string(), v)).collect())
}

#[test]
fn chat_message_has_role_and_content() {
    assert_eq!(chat_message("user", "hi"), object(vec![("role", text("user")), ("content", text("hi"))]));
}

#[test]
fn title_prompt_text() {
    assert_eq!(
        TITLE_PROMPT,
        "Please generate a short, descriptive title (maximum 7 words) for this conversation based on the user's question using user's language. Only return the title, no additional text."
    );
}

#[test]
fn title_body_drops_stream_and_appends_two_messages() {
    let request = parse_document(
        "{\"model\":\"m\",\"stream\":true,\"messages\":[{\"role\":\"user\",\"content\":\"q\"}],\"n\":1}",
    )
    .unwrap();
    let kept = request.clone();
    let body = create_title_body(&request, "answer").unwrap();
    assert_eq!(request, kept);
    assert_eq!(body.get("stream"), None);
    assert_eq!(body.get("model"), Some(&text("m")));
    assert_eq!(body.get("n"), Some(&number("1")));
    assert_eq!(
        body.get("messages"),
        Some(&Json::Array(vec![
            object(vec![("content", text("q")), ("role", text("user"))]),
            chat_message("assistant", "answer"),
            chat_message("user", TITLE_PROMPT),
        ]))
    );
    match body {
        Json::Object(members) => assert_eq!(members.len(), 3),
        _ => unreachable!(),
    }
}

#[test]
fn title_body_without_a_message_array() {
    let no_messages = object(vec![("stream", Json::Bool(true)), ("model", text("m"))]);
    assert_eq!(create_title_body(&no_messages, "a"), Ok(object(vec![("model", text("m"))])));
    let odd_messages = object(vec![("messages", text("none")), ("stream", Json::Null)]);
    assert_eq!(create_title_body(&odd_messages, "a"), Ok(object(vec![("messages", text("none"))])));
    assert_eq!(create_title_body(&text("body"), "a"), Ok(text("body")));
    assert_eq!(create_title_body(&Json::Array(vec![]), "a"), Ok(Json::Array(vec![])));
}

#[test]
fn title_body_of_an_empty_reply() {
    let request = object(vec![("messages", Json::Array(vec![]))]);
    let body = create_title_body(&request, "").unwrap();
    assert_eq!(
        body,
        object(vec![("messages", Json::Array(vec![chat_message("assistant", ""), chat_message("user", TITLE_PROMPT)]))])
    );
}

#[test]
fn title_failure_report() {
    assert_eq!(
        title_failure("401 Unauthorized", "{\"error\":\"no\"}"),
        "Request failed with status: 401 Unauthorized, body: {\"error\":\"no\"}"
    );
    assert_eq!(title_failure("", ""), "Request failed with status: , body: ");
}

#[test]
fn title_result_of_each_answer() {
    let doc = object(vec![("title", text("T"))]);
    assert_eq!(title_result(TitleAnswer::Success(doc.clone())), Ok(doc));
    assert_eq!(
        title_result(TitleAnswer::Refused { status: "500 Internal Server Error".to_string(), body: "down".to_string() }),
        Err("Request failed with status: 500 Internal Server Error, body: down".to_string())
    );
    assert_eq!(title_result(TitleAnswer::Failed("timed out".to_string())), Err("timed out".to_string()));
}

#[test]
fn models_envelope_of_each_reply() {
    let doc = object(vec![("data", Json::Array(vec![]))]);
    assert_eq!(
        models_result(ModelsReply::Listed(doc.clone())),
        CommandResult { success: true, data: Some(doc), error: None }
    );
    assert_eq!(
        models_result(ModelsReply::Unreadable("expected value".to_string())),
        CommandResult { success: false, data: None, error: Some("Failed to parse JSON: expected value".to_string()) }
    );
    assert_eq!(
        models_result(ModelsReply::Refused("404 Not Found".to_string())),
        CommandResult { success: false, data: None, error: Some("Request failed with status: 404 Not Found".to_string()) }
    );
    assert_eq!(
        models_result(ModelsReply::Unreachable("dns".to_string())),
        CommandResult { success: false, data: None, error: Some("Request error: dns".to_string()) }
    );
}

#[test]
fn command_result_builders() {
    assert_eq!(CommandResult::succeeded(Json::Null), CommandResult { success: true, data: Some(Json::Null), error: None });
    assert_eq!(
        CommandResult::failed("a: ", "b"),
        CommandResult { success: false, data: None, error: Some("a: b".to_string()) }
    );
}
