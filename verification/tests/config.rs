use konteksto_engine::config::{decimal_string, Args, Lang, OptimizerConfig, ServerConfig};
use konteksto_engine::oracle::{play_url, CONTEXTO_API_URL};

#[test]
fn languages_have_their_codes() {
    assert_eq!(Lang::En.to_string(), "en");
    assert_eq!(Lang::Pt.to_string(), "pt-br");
    assert_eq!(Lang::Es.to_string(), "es");
}

#[test]
fn codes_name_their_languages() {
    assert_eq!(Lang::from_str("en"), Ok(Lang::En));
    assert_eq!(Lang::from_str("pt-br"), Ok(Lang::Pt));
    assert_eq!(Lang::from_str("pt"), Ok(Lang::Pt));
    assert_eq!(Lang::from_str("es"), Ok(Lang::Es));
}

#[test]
fn codes_are_read_in_any_case() {
    assert_eq!(Lang::from_str("EN"), Ok(Lang::En));
    assert_eq!(Lang::from_str("Pt-Br"), Ok(Lang::Pt));
    assert_eq!(Lang::from_str("eS"), Ok(Lang::Es));
}

#[test]
fn unknown_codes_are_turned_down_with_the_input_as_given() {
    assert_eq!(Lang::from_str("fr"), Err("Invalid language: fr".to_string()));
    assert_eq!(Lang::from_str("FR"), Err("Invalid language: FR".to_string()));
    assert_eq!(Lang::from_str(""), Err("Invalid language: ".to_string()));
    assert_eq!(Lang::from_str(" en"), Err("Invalid language:  en".to_string()));
}

#[test]
fn from_lowercase_does_not_fold_case() {
    assert_eq!(Lang::from_lowercase("en"), Some(Lang::En));
    assert_eq!(Lang::from_lowercase("pt"), Some(Lang::Pt));
    assert_eq!(Lang::from_lowercase("pt-br"), Some(Lang::Pt));
    assert_eq!(Lang::from_lowercase("es"), Some(Lang::Es));
    assert_eq!(Lang::from_lowercase("EN"), None);
    assert_eq!(Lang::from_lowercase("english"), None);
}

#[test]
fn every_code_reads_back_as_its_language() {
    for lang in [Lang::En, Lang::Pt, Lang::Es] {
        assert_eq!(Lang::from_str(&lang.to_string()), Ok(lang));
    }
}

#[test]
fn numbers_are_written_in_decimal() {
    assert_eq!(decimal_string(0), "0");
    assert_eq!(decimal_string(7), "7");
    assert_eq!(decimal_string(10), "10");
    assert_eq!(decimal_string(2049), "2049");
    assert_eq!(decimal_string(65535), "65535");
    assert_eq!(decimal_string(1234567890), "1234567890");
    assert_eq!(decimal_string(u64::MAX), "18446744073709551615");
}

#[test]
fn a_server_address_is_host_colon_port() {
    let server = ServerConfig { host: "0.0.0.0".to_string(), port: 2049 };
    assert_eq!(server.addr(), "0.0.0.0:2049");
    let server = ServerConfig { host: "localhost".to_string(), port: 0 };
    assert_eq!(server.addr(), "localhost:0");
    let server = ServerConfig { host: String::new(), port: 65535 };
    assert_eq!(server.addr(), ":65535");
}

fn args(lang: Lang, host: &str, port: u32) -> Args<f32> {
    Args {
        game_id: 42,
        lang,
        grpc_port: port,
        grpc_host: host.to_string(),
        optimizer_config: OptimizerConfig { max_retries: 1, max_iters: 100, beta: 0.5, margin: 200 },
    }
}

#[test]
fn the_index_address_is_built_from_host_and_port() {
    assert_eq!(args(Lang::En, "localhost", 6334).grpc_url(), "http://localhost:6334");
    assert_eq!(args(Lang::En, "qdrant", 4294967295).grpc_url(), "http://qdrant:4294967295");
}

#[test]
fn the_collection_is_named_by_the_language() {
    assert_eq!(args(Lang::Pt, "localhost", 6334).collection(), "pt-br");
    assert_eq!(args(Lang::Es, "localhost", 6334).collection(), "es");
}

#[test]
fn the_oracle_address_names_language_game_and_word() {
    assert_eq!(
        play_url(Lang::En, 42, "house"),
        "https://api.contexto.me/machado/en/game/42/house"
    );
    assert_eq!(
        play_url(Lang::Pt, 0, "casa"),
        "https://api.contexto.me/machado/pt-br/game/0/casa"
    );
    assert_eq!(
        play_url(Lang::Es, 1000, ""),
        format!("{}/es/game/1000/", CONTEXTO_API_URL)
    );
}

#[test]
fn the_default_language_is_english() {
    assert_eq!(Lang::default(), Lang::En);
}
