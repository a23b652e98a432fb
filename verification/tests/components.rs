//! Path components, parameter extraction, media-type validation, and the
//! pipeline stage machine.

use tsukuyomi::body::{
    ExtractBodyError, JsonDecoder, MimeInfo, PlainTextDecoder, UrlencodedDecoder,
};
use tsukuyomi::captures::CaptureNames;
use tsukuyomi::input::Params;
use tsukuyomi::path::{catch_all, param, slash, Path, UriComponent};
use tsukuyomi::pipeline::{Pipeline, Stage, StageAction};
use tsukuyomi::error::Error;
use tsukuyomi::path::percent_decode;
use tsukuyomi::service::usize_to_string;

#[test]
fn path_create_assembles_components() {
    let components = vec![
        UriComponent::Static("posts".to_string()),
        param("id").component(),
    ];
    let path = Path::create(&components).unwrap();
    let uri = path.uri().unwrap();
    assert_eq!(uri.as_str(), "/posts/:id");
    let names = uri.capture_names().unwrap();
    assert_eq!(names.position("id"), Some(0));
}

#[test]
fn path_create_with_slash_and_catch_all() {
    let trailing = Path::create(&vec![
        UriComponent::Static("docs".to_string()),
        slash().component(),
    ])
    .unwrap();
    assert_eq!(trailing.uri().unwrap().as_str(), "/docs/");

    let wild = Path::create(&vec![
        UriComponent::Static("files".to_string()),
        catch_all("rest").component(),
    ])
    .unwrap();
    assert_eq!(wild.uri().unwrap().as_str(), "/files/*rest");
    assert!(wild.uri().unwrap().capture_names().unwrap().has_wildcard());
}

#[test]
fn path_create_rejects_invalid_chains() {
    assert!(Path::create(&vec![
        param("id").component(),
        param("id").component(),
    ])
    .is_err());
    assert!(Path::create(&vec![
        catch_all("rest").component(),
        UriComponent::Static("tail".to_string()),
    ])
    .is_err());
}

#[test]
fn path_root_and_asterisk() {
    assert_eq!(Path::root().uri().unwrap().as_str(), "/");
    assert!(Path::asterisk().uri().is_none());
}

#[test]
fn param_and_catch_all_extract_from_params() {
    let mut names = CaptureNames::new();
    names.push_name("id", false).unwrap();
    names.push_name("rest", true).unwrap();
    let params = Params::new(names, vec!["42".to_string(), "a/b".to_string()]);

    assert_eq!(param("id").extract_inner(&params).unwrap(), "42");
    assert_eq!(catch_all("rest").extract_inner(&params).unwrap(), "a/b");
    assert!(param("missing").extract_inner(&params).is_err());
}

fn mime(kind: &str, subtype: &str, charset: Option<&str>) -> MimeInfo {
    MimeInfo {
        kind: kind.to_string(),
        subtype: subtype.to_string(),
        charset: charset.map(|c| c.to_string()),
    }
}

#[test]
fn plain_text_decoder_validates_mime() {
    let decoder = PlainTextDecoder;
    assert!(decoder.validate_mime(None).is_ok());
    assert!(decoder.validate_mime(Some(&mime("text", "plain", None))).is_ok());
    assert!(decoder.validate_mime(Some(&mime("text", "plain", Some("utf-8")))).is_ok());
    assert!(matches!(
        decoder.validate_mime(Some(&mime("text", "plain", Some("latin1")))),
        Err(ExtractBodyError::NotUtf8Charset)
    ));
    assert!(matches!(
        decoder.validate_mime(Some(&mime("application", "json", None))),
        Err(ExtractBodyError::UnexpectedContentType { .. })
    ));
}

#[test]
fn json_decoder_validates_mime() {
    let decoder = JsonDecoder;
    assert!(matches!(
        decoder.validate_mime(None),
        Err(ExtractBodyError::MissingContentType)
    ));
    assert!(decoder.validate_mime(Some(&mime("application", "json", None))).is_ok());
    assert!(matches!(
        decoder.validate_mime(Some(&mime("text", "plain", None))),
        Err(ExtractBodyError::UnexpectedContentType { .. })
    ));
}

#[test]
fn urlencoded_decoder_validates_mime() {
    let decoder = UrlencodedDecoder;
    assert!(matches!(
        decoder.validate_mime(None),
        Err(ExtractBodyError::MissingContentType)
    ));
    assert!(decoder
        .validate_mime(Some(&mime("application", "x-www-form-urlencoded", None)))
        .is_ok());
    assert!(matches!(
        decoder.validate_mime(Some(&mime("multipart", "form-data", None))),
        Err(ExtractBodyError::UnexpectedContentType { .. })
    ));
}

#[test]
fn pipeline_machine_walks_stage_order() {
    let mut pl = Pipeline::new(2);
    assert_eq!(pl.action(), Some(StageAction::RunRecognize));
    pl.step(true);
    assert_eq!(pl.action(), Some(StageAction::RunBefore(0)));
    pl.step(true);
    assert_eq!(pl.action(), Some(StageAction::RunBefore(1)));
    pl.step(true);
    assert_eq!(pl.action(), Some(StageAction::RunHandler));
    pl.step(true);
    assert_eq!(pl.action(), Some(StageAction::RunAfter(1)));
    pl.step(true);
    assert_eq!(pl.action(), Some(StageAction::RunAfter(0)));
    pl.step(true);
    assert_eq!(pl.stage, Stage::Done);
    assert_eq!(pl.action(), None);
}

#[test]
fn pipeline_machine_fails_straight_to_terminal() {
    let mut pl = Pipeline::new(2);
    pl.step(true);
    pl.step(true);
    assert_eq!(pl.action(), Some(StageAction::RunBefore(1)));
    pl.step(false);
    assert_eq!(pl.stage, Stage::Failed);
    assert_eq!(pl.action(), None);
}

#[test]
fn decimal_formatting_is_exact() {
    assert_eq!(usize_to_string(0), "0");
    assert_eq!(usize_to_string(7), "7");
    assert_eq!(usize_to_string(10), "10");
    assert_eq!(usize_to_string(40961), "40961");
}

#[test]
fn error_constructors_carry_status() {
    let e = Error::not_found();
    assert!(e.is_http());
    assert_eq!(e.status(), 404);
    assert_eq!(Error::method_not_allowed().status(), 405);
    assert_eq!(Error::bad_request("bad".to_string()).status(), 400);
    assert_eq!(Error::internal_server_error("oops".to_string()).status(), 500);
    assert!(!Error::critical("fatal".to_string()).is_http());
}

#[test]
fn percent_decode_is_exact() {
    assert_eq!(percent_decode("abc").unwrap(), b"abc");
    assert_eq!(percent_decode("a%2Fb").unwrap(), b"a/b");
    assert_eq!(percent_decode("%41%6a%6A").unwrap(), b"Ajj");
    assert_eq!(percent_decode("").unwrap(), b"");
    assert!(percent_decode("%2").is_err());
    assert!(percent_decode("a%GGb").is_err());
    assert!(percent_decode("%").is_err());
}
