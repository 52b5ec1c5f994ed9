//! Settings.

use vstd::prelude::*;

verus! {

/// The settings of the search. `beta`, the decay of the momentum, is of the
/// type of the coordinates, which this crate only carries.
#[derive(Debug)]
pub struct OptimizerConfig<T> {
    /// How many times the search is started anew from a fresh seed.
    pub max_retries: usize,
    /// How many steps one attempt may take.
    pub max_iters: usize,
    /// How much of the previous momentum a move keeps.
    pub beta: T,
    /// The rank above which a chosen neighbour is not moved towards.
    pub margin: u32,
}


/// The language of a game, which is also the name of its collection in the
/// index.
#[derive(Debug, Clone, Copy, PartialEq, Eq, Structural)]
pub enum Lang {
    En,
    Pt,
    Es,
}

impl Default for Lang {
    /// English.
    fn default() -> (lang: Self)
        ensures
            lang == Lang::En,
    {
        Lang::En
    }
}

/// What `str::to_lowercase` returns for these characters.
pub uninterp spec fn lowercase(s: Seq<char>) -> Seq<char>;

/// `str::to_lowercase`: the lowercase form of a string, which depends on its
/// characters alone.
#[verifier::external_body]
fn to_lowercase(s: &str) -> (lower: String)
    ensures
        lower@ == lowercase(s@),
{
    s.to_lowercase()
}

impl Lang {
    /// The code of the language.
    pub open spec fn code(self) -> Seq<char> {
        match self {
            Lang::En => "en"@,
            Lang::Pt => "pt-br"@,
            Lang::Es => "es"@,
        }
    }

    /// The language that a code in lower case names, if any.
    pub open spec fn named_by(code: Seq<char>) -> Option<Lang> {
        if code == "en"@ {
            Some(Lang::En)
        } else if code == "pt-br"@ || code == "pt"@ {
            Some(Lang::Pt)
        } else if code == "es"@ {
            Some(Lang::Es)
        } else {
            None
        }
    }

    /// The text with which a code that names no language is turned down.
    pub open spec fn refusal(input: Seq<char>) -> Seq<char> {
        "Invalid language: "@ + input
    }

    /// The code of the language: "en", "pt-br" or "es".
    pub fn to_string(&self) -> (code: String)
        ensures
            code@ == self.code(),
    {
        match self {
            Lang::En => String::from_str("en"),
            Lang::Pt => String::from_str("pt-br"),
            Lang::Es => String::from_str("es"),
        }
    }

    /// The language that a code in lower case names: "en"; "pt-br" or "pt";
    /// "es".
    pub fn from_lowercase(code: &str) -> (lang: Option<Lang>)
        ensures
            lang == Lang::named_by(code@),
    {
        let code = String::from_str(code);
        if code == String::from_str("en") {
            Some(Lang::En)
        } else if code == String::from_str("pt-br") || code == String::from_str("pt") {
            Some(Lang::Pt)
        } else if code == String::from_str("es") {
            Some(Lang::Es)
        } else {
            None
        }
    }

    /// The language that a code names, whatever the case of its letters; a
    /// code that names none is turned down with a text that quotes it.
    pub fn from_str(input: &str) -> (lang: Result<Lang, String>)
        ensures
            match Lang::named_by(lowercase(input@)) {
                Some(named) => lang == Ok::<Lang, String>(named),
                None => lang matches Err(text) && text@ == Lang::refusal(input@),
            },
    {
        let lower = to_lowercase(input);
        match Lang::from_lowercase(lower.as_str()) {
            Some(lang) => Ok(lang),
            None => Err(String::from_str("Invalid language: ").concat(input)),
        }
    }
}

/// The digit `0` to `9` as a character.
pub open spec fn digit(d: nat) -> char
    recommends
        d < 10,
{
    if d == 0 {
        '0'
    } else if d == 1 {
        '1'
    } else if d == 2 {
        '2'
    } else if d == 3 {
        '3'
    } else if d == 4 {
        '4'
    } else if d == 5 {
        '5'
    } else if d == 6 {
        '6'
    } else if d == 7 {
        '7'
    } else if d == 8 {
        '8'
    } else {
        '9'
    }
}

/// A number in decimal, without leading zeros.
pub open spec fn decimal(n: nat) -> Seq<char>
    decreases n,
{
    if n < 10 {
        seq![digit(n)]
    } else {
        decimal(n / 10).push(digit(n % 10))
    }
}

/// The digit `d` as a text of one character.
fn digit_str(d: u64) -> (text: &'static str)
    requires
        d < 10,
    ensures
        text@ == seq![digit(d as nat)],
{
    proof {
        reveal_strlit("0");
        reveal_strlit("1");
        reveal_strlit("2");
        reveal_strlit("3");
        reveal_strlit("4");
        reveal_strlit("5");
        reveal_strlit("6");
        reveal_strlit("7");
        reveal_strlit("8");
        reveal_strlit("9");
    }
    let text: &'static str = if d == 0 {
        "0"
    } else if d == 1 {
        "1"
    } else if d == 2 {
        "2"
    } else if d == 3 {
        "3"
    } else if d == 4 {
        "4"
    } else if d == 5 {
        "5"
    } else if d == 6 {
        "6"
    } else if d == 7 {
        "7"
    } else if d == 8 {
        "8"
    } else {
        "9"
    };
    assert(text@ =~= seq![digit(d as nat)]);
    text
}

/// A number in decimal, without leading zeros.
pub fn decimal_string(n: u64) -> (text: String)
    ensures
        text@ == decimal(n as nat),
    decreases n,
{
    if n < 10 {
        String::from_str(digit_str(n))
    } else {
        let mut text = decimal_string(n / 10);
        text.append(digit_str(n % 10));
        assert(text@ =~= decimal(n as nat));
        text
    }
}

/// Where a server listens.
#[derive(Debug)]
pub struct ServerConfig {
    pub host: String,
    pub port: u16,
}

impl ServerConfig {
    /// Host and port as one address: the host, a colon, the port in decimal.
    pub fn addr(&self) -> (address: String)
        ensures
            address@ == self.host@ + seq![':'] + decimal(self.port as nat),
    {
        proof {
            reveal_strlit(":");
        }
        let mut address = self.host.clone();
        address.append(":");
        address.append(decimal_string(self.port as u64).as_str());
        assert(":"@ =~= seq![':']);
        address
    }
}

/// The settings of a game and of the search for its word.
#[derive(Debug)]
pub struct Args<T> {
    /// The number of the game.
    pub game_id: u32,
    /// The language to play in.
    pub lang: Lang,
    /// The port on which the index answers.
    pub grpc_port: u32,
    /// The host on which the index answers.
    pub grpc_host: String,
    /// The settings of the search.
    pub optimizer_config: OptimizerConfig<T>,
}

impl<T> Args<T> {
    /// The address of the index: `http://`, the host, a colon, the port in
    /// decimal.
    pub fn grpc_url(&self) -> (url: String)
        ensures
            url@ == "http://"@ + self.grpc_host@ + seq![':'] + decimal(self.grpc_port as nat),
    {
        proof {
            reveal_strlit(":");
        }
        let mut url = String::from_str("http://");
        url.append(self.grpc_host.as_str());
        url.append(":");
        url.append(decimal_string(self.grpc_port as u64).as_str());
        assert(":"@ =~= seq![':']);
        url
    }

    /// The collection of the index that holds the words of the game's
    /// language: it is named by the language's code.
    pub fn collection(&self) -> (name: String)
        ensures
            name@ == self.lang.code(),
    {
        self.lang.to_string()
    }
}

} // verus!
