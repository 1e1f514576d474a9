use tickit_sync::config::{
    default_bind, default_db_path, default_port, entry_admits, hash_outcome, hash_preview,
    hash_token, token_admitted, Config, ConfigError, DatabaseConfig, ServerConfig, TokenConfig,
};

fn with_tokens(tokens: Vec<(&str, String)>) -> Config {
    let mut config = Config::default();
    config.tokens = tokens
        .into_iter()
        .map(|(name, token_hash)| TokenConfig { name: name.to_string(), token_hash })
        .collect();
    config
}

#[test]
fn defaults() {
    assert_eq!(default_bind(), "0.0.0.0");
    assert_eq!(default_port(), 3030);
    assert_eq!(default_db_path(), "tickit-sync.sqlite");
    let config = Config::default();
    assert_eq!(config.server.bind, "0.0.0.0");
    assert_eq!(config.server.port, 3030);
    assert_eq!(config.database.path, "tickit-sync.sqlite");
    assert!(config.tokens.is_empty());
}

#[test]
fn load_takes_the_file_or_the_defaults() {
    let loaded = Config::load(None);
    assert_eq!(loaded.server.port, 3030);
    let file = Config {
        server: ServerConfig { bind: "127.0.0.1".to_string(), port: 8080 },
        database: DatabaseConfig { path: "/var/db.sqlite".to_string() },
        tokens: vec![TokenConfig { name: "n".to_string(), token_hash: "h".to_string() }],
    };
    let loaded = Config::load(Some(file));
    assert_eq!(loaded.server.bind, "127.0.0.1");
    assert_eq!(loaded.server.port, 8080);
    assert_eq!(loaded.database.path, "/var/db.sqlite");
    assert_eq!(loaded.tokens.len(), 1);
}

#[test]
fn where_the_configuration_is() {
    let xdg = Some("/home/u/.config/tickit-sync/config.toml".to_string());
    assert_eq!(
        Config::default_path(Some("/etc/t.toml".to_string()), true, true, xdg.clone()),
        Ok("/etc/t.toml".to_string())
    );
    assert_eq!(Config::default_path(None, true, true, xdg.clone()), Ok("config.toml".to_string()));
    assert_eq!(
        Config::default_path(None, false, true, xdg.clone()),
        Ok("/data/config.toml".to_string())
    );
    assert_eq!(Config::default_path(None, false, false, xdg.clone()), Ok(xdg.unwrap()));
    assert_eq!(Config::default_path(None, false, false, None), Err(ConfigError::NoConfigDirectory));
    assert_eq!(Config::default_path(None, true, false, None), Ok("config.toml".to_string()));
}

#[test]
fn text_of_the_file() {
    assert_eq!(
        Config::file_text("[server]\nport = 1"),
        "# tickit-sync configuration\n# See: https://github.com/ricardodantas/tickit-sync\n\n[server]\nport = 1\n\n# Add tokens with: tickit-sync token --name <device-name>\n"
    );
}

#[test]
fn plain_tokens_are_compared() {
    let config = with_tokens(vec![("a", "secret-a".to_string()), ("b", "secret-b".to_string())]);
    assert!(config.validate_token("secret-a"));
    assert!(config.validate_token("secret-b"));
    assert!(!config.validate_token("secret"));
    assert!(!config.validate_token(""));
    assert!(!Config::default().validate_token("secret-a"));
}

#[test]
fn hashed_tokens_are_verified() {
    let hash = hash_token("tks_abc").unwrap();
    assert!(hash.starts_with("$argon2"));
    assert_ne!(hash, "tks_abc");
    let config = with_tokens(vec![("plain", "other".to_string()), ("hashed", hash.clone())]);
    assert!(config.validate_token("tks_abc"));
    assert!(config.validate_token("other"));
    assert!(!config.validate_token("tks_abd"));
    // A stored hash is no token: only what hashes to it is.
    assert!(!config.validate_token(&hash));
    assert!(token_admitted(&hash, "tks_abc"));
    assert!(!token_admitted(&hash, &hash));
}

#[test]
fn each_hash_has_its_own_salt() {
    let one = hash_token("t").unwrap();
    let other = hash_token("t").unwrap();
    assert_ne!(one, other);
}

#[test]
fn what_argon2_found_decides() {
    assert!(entry_admits("h", "t", true, true));
    assert!(!entry_admits("t", "t", true, false));
    assert!(entry_admits("t", "t", false, false));
    assert!(entry_admits("t", "t", false, true));
    assert!(!entry_admits("h", "t", false, true));
}

#[test]
fn what_hashing_comes_to() {
    assert_eq!(hash_outcome(Ok("$argon2id$x".to_string())), Ok("$argon2id$x".to_string()));
    assert_eq!(
        hash_outcome(Err(argon2::password_hash::Error::Password)),
        Err(ConfigError::HashFailed)
    );
    assert_eq!(
        hash_outcome(Err(argon2::password_hash::Error::SaltInvalid(
            argon2::password_hash::errors::InvalidValue::TooShort
        ))),
        Err(ConfigError::HashFailed)
    );
}

#[test]
fn tokens_by_name() {
    let mut config = with_tokens(vec![
        ("phone", "a".to_string()),
        ("laptop", "b".to_string()),
        ("phone", "c".to_string()),
    ]);
    assert!(config.has_token_named("phone"));
    assert!(config.has_token_named("laptop"));
    assert!(!config.has_token_named("Phone"));
    assert!(!config.has_token_named(""));

    assert!(!config.revoke_token("tablet"));
    assert_eq!(config.tokens.len(), 3);
    assert!(config.revoke_token("phone"));
    assert_eq!(config.tokens.len(), 1);
    assert_eq!(config.tokens[0].name, "laptop");
    assert_eq!(config.tokens[0].token_hash, "b");
    assert!(!config.has_token_named("phone"));
    assert!(!config.revoke_token("phone"));
    assert_eq!(config.server.port, 3030);
    assert!(config.validate_token("b"));
    assert!(!config.validate_token("a"));
}

#[test]
fn copies_of_a_configuration() {
    let config = with_tokens(vec![("phone", "a".to_string())]);
    let copy = config.clone();
    assert_eq!(copy.server.bind, config.server.bind);
    assert_eq!(copy.server.port, config.server.port);
    assert_eq!(copy.database.path, config.database.path);
    assert_eq!(copy.tokens.len(), 1);
    assert_eq!(copy.tokens[0].name, "phone");
    assert_eq!(copy.tokens[0].token_hash, "a");
}

#[test]
fn previews_of_stored_hashes() {
    assert_eq!(hash_preview(""), "");
    assert_eq!(hash_preview("short"), "short");
    assert_eq!(hash_preview("12345678901234567890"), "12345678901234567890");
    assert_eq!(hash_preview("123456789012345678901"), "12345678901234567890...");
    assert_eq!(
        hash_preview("$argon2id$v=19$m=19456,t=2,p=1$c2FsdA$aGFzaA"),
        "$argon2id$v=19$m=194..."
    );
}
