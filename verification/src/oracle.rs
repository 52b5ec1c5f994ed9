//! The scoring oracle: where a word is sent to be ranked.

use crate::config::{decimal, decimal_string, Lang};
use vstd::prelude::*;

verus! {

/// The root of the oracle's addresses.
pub const CONTEXTO_API_URL: &'static str = "https://api.contexto.me/machado";

/// The address at which the oracle ranks `word` in a game: the root, the code
/// of the language, `game`, the number of the game in decimal and the word,
/// with a slash between each two.
pub open spec fn play_address(lang: Lang, game_id: u32, word: Seq<char>) -> Seq<char> {
    CONTEXTO_API_URL@ + seq!['/'] + lang.code() + "/game/"@ + decimal(game_id as nat) + seq!['/']
        + word
}

/// The address at which the oracle ranks `word` in a game.
pub fn play_url(lang: Lang, game_id: u32, word: &str) -> (url: String)
    ensures
        url@ == play_address(lang, game_id, word@),
{
    proof {
        reveal_strlit("/");
    }
    assert("/"@ =~= seq!['/']);
    let mut url = String::from_str(CONTEXTO_API_URL);
    url.append("/");
    url.append(lang.to_string().as_str());
    url.append("/game/");
    url.append(decimal_string(game_id as u64).as_str());
    url.append("/");
    url.append(word);
    url
}

} // verus!
