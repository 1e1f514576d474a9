//! The server's configuration and the API tokens that it admits.

use vstd::prelude::*;
use vstd::string::{StrSliceExecFns, StringExecFns};
use crate::text::same_text;

verus! {

/// Whether `argon2::PasswordHash::new` reads the text as a hash in the PHC string format.
pub uninterp spec fn phc_parses(stored: Seq<char>) -> bool;

/// Whether `verify_password` of `argon2::Argon2::default()` accepts the token's bytes against
/// the hash that `argon2::PasswordHash::new` reads from the stored text.
pub uninterp spec fn argon2_accepts(token: Seq<char>, stored: Seq<char>) -> bool;

/// Calls `argon2::PasswordHash::new` and says whether it read the text. Nothing is claimed of
/// which texts are read: the contract only gives the outcome its name.
#[verifier::external_body]
fn is_password_hash(stored: &str) -> (r: bool)
    ensures
        r == phc_parses(stored@),
{
    argon2::PasswordHash::new(stored).is_ok()
}

/// Calls `verify_password` of `argon2::Argon2::default()` with the token's bytes and the hash
/// that `argon2::PasswordHash::new` reads from the stored text, which the caller knows to be
/// readable, and says whether the token was accepted. The contract only gives the outcome
/// its name.
#[verifier::external_body]
fn verifies_against(token: &str, stored: &str) -> (r: bool)
    requires
        phc_parses(stored@),
    ensures
        r == argon2_accepts(token@, stored@),
{
    match argon2::PasswordHash::new(stored) {
        Ok(hash) => argon2::PasswordVerifier::verify_password(
            &argon2::Argon2::default(),
            token.as_bytes(),
            &hash,
        ).is_ok(),
        Err(_) => false,
    }
}

#[verifier::external_type_specification]
#[verifier::external_body]
pub struct ExSaltString(argon2::password_hash::SaltString);

#[verifier::external_type_specification]
#[verifier::external_body]
pub struct ExHashError(argon2::password_hash::Error);

/// Calls `argon2::password_hash::SaltString::generate` with the system's random source. The
/// salt is random, so nothing is claimed of it.
#[verifier::external_body]
fn fresh_salt() -> (r: argon2::password_hash::SaltString) {
    argon2::password_hash::SaltString::generate(&mut argon2::password_hash::rand_core::OsRng)
}

/// Calls `hash_password` of `argon2::Argon2::default()` with the token's bytes and the salt,
/// and writes the hash out as a PHC string. The contract claims what the documentation of
/// `argon2` shows for every hash made this way: `argon2::PasswordHash::new` reads the string,
/// and `verify_password` accepts the same bytes against it. Which string comes out is not
/// said.
#[verifier::external_body]
fn hash_with_salt(token: &str, salt: &argon2::password_hash::SaltString) -> (r: Result<
    String,
    argon2::password_hash::Error,
>)
    ensures
        r matches Ok(hash) ==> phc_parses(hash@) && argon2_accepts(token@, hash@),
{
    match argon2::PasswordHasher::hash_password(&argon2::Argon2::default(), token.as_bytes(), salt)
    {
        Ok(hash) => Ok(hash.to_string()),
        Err(e) => Err(e),
    }
}

/// Why the configuration could not be used.
#[derive(Debug, Clone, Copy, PartialEq, Eq, Structural)]
pub enum ConfigError {
    /// No path was given and the system names no configuration directory.
    NoConfigDirectory,
    /// The token could not be hashed.
    HashFailed,
}

/// Where the server listens.
#[derive(Debug)]
pub struct ServerConfig {
    /// Address to bind.
    pub bind: String,
    /// Port to listen on.
    pub port: u16,
}

/// Where the server keeps its data.
#[derive(Debug)]
pub struct DatabaseConfig {
    /// Path of the database file.
    pub path: String,
}

/// A token that the server admits.
#[derive(Debug)]
pub struct TokenConfig {
    /// Name of the device or person that holds the token.
    pub name: String,
    /// The argon2 hash of the token as a PHC string, or the token itself in old files.
    pub token_hash: String,
}

/// The server's configuration.
#[derive(Debug)]
pub struct Config {
    pub server: ServerConfig,
    pub database: DatabaseConfig,
    pub tokens: Vec<TokenConfig>,
}

/// What a [`TokenConfig`] holds.
pub struct TokenConfigView {
    pub name: Seq<char>,
    pub token_hash: Seq<char>,
}

impl View for TokenConfig {
    type V = TokenConfigView;

    open spec fn view(&self) -> TokenConfigView {
        TokenConfigView { name: self.name@, token_hash: self.token_hash@ }
    }
}

impl Clone for TokenConfig {
    fn clone(&self) -> (r: Self)
        ensures
            r@ == self@,
    {
        TokenConfig { name: self.name.clone(), token_hash: self.token_hash.clone() }
    }
}

/// What a [`Config`] holds.
pub struct ConfigView {
    pub bind: Seq<char>,
    pub port: u16,
    pub path: Seq<char>,
    pub tokens: Seq<TokenConfigView>,
}

impl View for Config {
    type V = ConfigView;

    open spec fn view(&self) -> ConfigView {
        ConfigView {
            bind: self.server.bind@,
            port: self.server.port,
            path: self.database.path@,
            tokens: self.tokens@.map_values(|token: TokenConfig| token@),
        }
    }
}

impl Clone for Config {
    fn clone(&self) -> (r: Self)
        ensures
            r@ == self@,
    {
        let mut tokens: Vec<TokenConfig> = Vec::new();
        let mut i: usize = 0;
        while i < self.tokens.len()
            invariant
                i <= self.tokens@.len(),
                tokens@.len() == i,
                forall|k: int| 0 <= k < i ==> tokens@[k]@ == self.tokens@[k]@,
            decreases self.tokens@.len() - i,
        {
            tokens.push(self.tokens[i].clone());
            i += 1;
        }
        let r = Config {
            server: ServerConfig { bind: self.server.bind.clone(), port: self.server.port },
            database: DatabaseConfig { path: self.database.path.clone() },
            tokens,
        };
        assert(r@.tokens =~= self@.tokens);
        r
    }
}

/// The configuration of a server that was given none.
pub open spec fn default_config() -> ConfigView {
    ConfigView {
        bind: "0.0.0.0"@,
        port: 3030,
        path: "tickit-sync.sqlite"@,
        tokens: Seq::empty(),
    }
}

/// The tokens that stay when those named `name` are revoked.
pub open spec fn token_stays(name: Seq<char>) -> spec_fn(TokenConfigView) -> bool {
    |token: TokenConfigView| token.name != name
}

/// What is shown of a stored hash: itself, or its first twenty characters and three dots
/// where it is longer.
pub open spec fn preview(stored: Seq<char>) -> Seq<char> {
    if stored.len() > 20 {
        stored.subrange(0, 20) + "..."@
    } else {
        stored
    }
}

/// What is shown of a stored hash in a listing of the tokens.
pub fn hash_preview(stored: &str) -> (r: String)
    ensures
        r@ == preview(stored@),
{
    let n = stored.unicode_len();
    if n > 20 {
        let mut shown = stored.substring_char(0, 20).to_owned();
        shown.append("...");
        shown
    } else {
        stored.to_owned()
    }
}

/// The address that the server binds where none is configured.
pub fn default_bind() -> (r: String)
    ensures
        r@ == "0.0.0.0"@,
{
    "0.0.0.0".to_owned()
}

/// The port on which the server listens where none is configured.
pub fn default_port() -> (r: u16)
    ensures
        r == 3030,
{
    3030
}

/// The path of the database file where none is configured.
pub fn default_db_path() -> (r: String)
    ensures
        r@ == "tickit-sync.sqlite"@,
{
    "tickit-sync.sqlite".to_owned()
}

/// The stored text admits the token: as an argon2 hash where it is one, else as the token
/// itself.
pub open spec fn admits(stored: Seq<char>, token: Seq<char>) -> bool {
    if phc_parses(stored) {
        argon2_accepts(token, stored)
    } else {
        stored == token
    }
}

/// Whether a stored text admits the token, given what argon2 made of the two: `is_hash` says
/// whether the stored text is a hash, `verified` whether the token was accepted against it.
pub fn entry_admits(stored: &str, token: &str, is_hash: bool, verified: bool) -> (r: bool)
    ensures
        r == if is_hash {
            verified
        } else {
            stored@ == token@
        },
{
    if is_hash {
        verified
    } else {
        same_text(stored, token)
    }
}

/// Whether a stored text admits the token.
pub fn token_admitted(stored: &str, token: &str) -> (r: bool)
    ensures
        r == admits(stored@, token@),
{
    let is_hash = is_password_hash(stored);
    let verified = is_hash && verifies_against(token, stored);
    entry_admits(stored, token, is_hash, verified)
}

impl Default for Config {
    fn default() -> (r: Self)
        ensures
            r@ == default_config(),
    {
        let r = Config {
            server: ServerConfig { bind: default_bind(), port: default_port() },
            database: DatabaseConfig { path: default_db_path() },
            tokens: Vec::new(),
        };
        assert(r@.tokens =~= Seq::empty());
        r
    }
}

impl Config {
    /// Some token of the configuration admits the token.
    pub open spec fn admits_token(&self, token: Seq<char>) -> bool {
        exists|i: int|
            0 <= i < self.tokens@.len() && admits((#[trigger] self.tokens@[i]).token_hash@, token)
    }

    /// Whether a token of the configuration has the name.
    pub fn has_token_named(&self, name: &str) -> (r: bool)
        ensures
            r == exists|i: int|
                0 <= i < self@.tokens.len() && (#[trigger] self@.tokens[i]).name == name@,
    {
        let mut i: usize = 0;
        while i < self.tokens.len()
            invariant
                i <= self.tokens@.len(),
                forall|k: int| 0 <= k < i ==> (#[trigger] self@.tokens[k]).name != name@,
            decreases self.tokens@.len() - i,
        {
            if same_text(self.tokens[i].name.as_str(), name) {
                assert(self@.tokens[i as int].name == name@);
                return true;
            }
            i += 1;
        }
        false
    }

    /// Takes the tokens named `name` out of the configuration, and says whether there was
    /// one.
    pub fn revoke_token(&mut self, name: &str) -> (revoked: bool)
        ensures
            final(self)@ == (ConfigView {
                tokens: old(self)@.tokens.filter(token_stays(name@)),
                ..old(self)@
            }),
            revoked == (final(self)@.tokens.len() != old(self)@.tokens.len()),
    {
        let ghost before = self@.tokens;
        let mut kept: Vec<TokenConfig> = Vec::new();
        let mut i: usize = 0;
        assert(before.take(0) =~= Seq::empty());
        assert(kept@.map_values(|token: TokenConfig| token@) =~= Seq::empty());
        while i < self.tokens.len()
            invariant
                i <= self.tokens@.len(),
                before == self@.tokens,
                self@ == old(self)@,
                kept@.map_values(|token: TokenConfig| token@) == before.take(i as int).filter(
                    token_stays(name@),
                ),
            decreases self.tokens@.len() - i,
        {
            let ghost sofar = kept@.map_values(|token: TokenConfig| token@);
            proof {
                before.lemma_take_succ_push(i as int);
                before.take(i as int).lemma_filter_push(before[i as int], token_stays(name@));
            }
            if !same_text(self.tokens[i].name.as_str(), name) {
                kept.push(self.tokens[i].clone());
                assert(kept@.map_values(|token: TokenConfig| token@) =~= sofar.push(
                    before[i as int],
                ));
            }
            i += 1;
        }
        assert(before.take(i as int) =~= before);
        let revoked = kept.len() != self.tokens.len();
        self.tokens = kept;
        revoked
    }

    /// The path of the configuration file: the one that the environment names; else
    /// `config.toml` in the working directory if it exists; else `/data/config.toml` if it
    /// exists; else the path that the caller gives for the user's configuration directory.
    pub fn default_path(
        from_environment: Option<String>,
        local_exists: bool,
        data_exists: bool,
        in_config_directory: Option<String>,
    ) -> (r: Result<String, ConfigError>)
        ensures
            match r {
                Ok(path) => match from_environment {
                    Some(named) => path@ == named@,
                    None => if local_exists {
                        path@ == "config.toml"@
                    } else if data_exists {
                        path@ == "/data/config.toml"@
                    } else {
                        in_config_directory is Some && path@ == in_config_directory->0@
                    },
                },
                Err(e) => {
                    &&& e == ConfigError::NoConfigDirectory
                    &&& from_environment is None
                    &&& !local_exists
                    &&& !data_exists
                    &&& in_config_directory is None
                },
            },
    {
        if let Some(named) = from_environment {
            return Ok(named);
        }
        if local_exists {
            return Ok("config.toml".to_owned());
        }
        if data_exists {
            return Ok("/data/config.toml".to_owned());
        }
        match in_config_directory {
            Some(path) => Ok(path),
            None => Err(ConfigError::NoConfigDirectory),
        }
    }

    /// The configuration to run with: what the file at the configuration path holds, or the
    /// defaults where there is no file.
    pub fn load(file: Option<Config>) -> (r: Self)
        ensures
            r@ == match file {
                Some(config) => config@,
                None => default_config(),
            },
    {
        match file {
            Some(config) => config,
            None => Config::default(),
        }
    }

    /// The text of a configuration file: the serialised configuration between a heading and a
    /// hint on how to add tokens.
    pub fn file_text(serialised: &str) -> (r: String)
        ensures
            r@ == "# tickit-sync configuration\n# See: https://github.com/ricardodantas/tickit-sync\n\n"@
                + serialised@ + "\n\n# Add tokens with: tickit-sync token --name <device-name>\n"@,
    {
        let mut text =
            "# tickit-sync configuration\n# See: https://github.com/ricardodantas/tickit-sync\n\n".to_owned();
        text.append(serialised);
        text.append("\n\n# Add tokens with: tickit-sync token --name <device-name>\n");
        text
    }

    /// Whether some token of the configuration admits the token: as an argon2 hash where the
    /// stored text is one, else as the token itself.
    pub fn validate_token(&self, token: &str) -> (r: bool)
        ensures
            r == self.admits_token(token@),
    {
        let mut i: usize = 0;
        while i < self.tokens.len()
            invariant
                i <= self.tokens@.len(),
                forall|k: int|
                    0 <= k < i ==> !admits((#[trigger] self.tokens@[k]).token_hash@, token@),
            decreases self.tokens@.len() - i,
        {
            if token_admitted(self.tokens[i].token_hash.as_str(), token) {
                return true;
            }
            i += 1;
        }
        false
    }
}

/// What hashing a token comes to, given what argon2 returned: the hash, or the failure.
pub fn hash_outcome(outcome: Result<String, argon2::password_hash::Error>) -> (r: Result<
    String,
    ConfigError,
>)
    ensures
        match outcome {
            Ok(hash) => r == Ok::<String, ConfigError>(hash),
            Err(_) => r == Err::<String, ConfigError>(ConfigError::HashFailed),
        },
{
    match outcome {
        Ok(hash) => Ok(hash),
        Err(_) => Err(ConfigError::HashFailed),
    }
}

/// The argon2 hash of a token under a fresh random salt, as a PHC string. The salt decides
/// the hash, so it is not said which string comes out; whichever does, it admits the token and
/// is recognised as a hash.
pub fn hash_token(token: &str) -> (r: Result<String, ConfigError>)
    ensures
        match r {
            Ok(hash) => phc_parses(hash@) && admits(hash@, token@),
            Err(e) => e == ConfigError::HashFailed,
        },
{
    let salt = fresh_salt();
    hash_outcome(hash_with_salt(token, &salt))
}

} // verus!
