use proxy_m365_write::config::{decode_sha256, get_var, load_dotenv, Config};
use proxy_m365_write::vars::VarMap;

const DIGEST_HEX: &str = "5be2c7f0a9f2b3c0b9a2d3e4f5061728394a5b6c7d8e9fa0b1c2d3e4f5061728";

fn vars(pairs: &[(&str, &str)]) -> VarMap {
    let mut m = VarMap::new();
    for (k, v) in pairs {
        m.insert(k.to_string(), v.to_string());
    }
    m
}

#[test]
fn decodes_a_hex_digest() {
    let d = decode_sha256(DIGEST_HEX).ok().unwrap();
    assert_eq!(d[0], 0x5b);
    assert_eq!(d[1], 0xe2);
    assert_eq!(d[31], 0x28);
    let upper = decode_sha256(&DIGEST_HEX.to_uppercase()).ok().unwrap();
    assert_eq!(d, upper);
}

#[test]
fn rejects_malformed_digests() {
    let message = "INTER_VM_BEARER_SHA256 must be exactly 64 hexadecimal characters";
    assert_eq!(decode_sha256(&DIGEST_HEX[..63]).err().unwrap().0, message);
    assert_eq!(decode_sha256(&format!("{DIGEST_HEX}0")).err().unwrap().0, message);
    assert_eq!(decode_sha256(&format!("g{}", &DIGEST_HEX[1..])).err().unwrap().0, message);
    // 63 ASCII digits and one two-byte character: 65 bytes.
    assert_eq!(decode_sha256(&format!("{}é", &DIGEST_HEX[..63])).err().unwrap().0, message);
    assert_eq!(decode_sha256("").err().unwrap().0, message);
}

#[test]
fn var_map_keeps_the_last_value() {
    let mut m = VarMap::new();
    assert!(m.get("A").is_none());
    m.insert("A".into(), "1".into());
    m.insert("B".into(), "2".into());
    m.insert("A".into(), "3".into());
    assert_eq!(m.get("A").unwrap(), "3");
    assert_eq!(m.get("B").unwrap(), "2");
    assert!(m.get("C").is_none());
}

#[test]
fn parses_dotenv_lines() {
    let text = "# comment\n  KEY = value with spaces  \r\nEMPTY=\nNOEQUALS\n\n=orphan\nK2=a=b\n  # KEY=ignored\nKEY=second";
    let m = load_dotenv(Some(text));
    assert_eq!(m.get("KEY").unwrap(), "second");
    assert_eq!(m.get("EMPTY").unwrap(), "");
    assert_eq!(m.get("K2").unwrap(), "a=b");
    assert_eq!(m.get("").unwrap(), "orphan");
    assert!(m.get("NOEQUALS").is_none());
    assert!(m.get("# KEY").is_none());
    let first = load_dotenv(Some("KEY = value with spaces  \r\n"));
    assert_eq!(first.get("KEY").unwrap(), "value with spaces");
}

#[test]
fn missing_dotenv_sets_nothing() {
    let m = load_dotenv(None);
    assert!(m.get("KEY").is_none());
}

#[test]
fn environment_wins_over_dotenv() {
    let env = vars(&[("A", "from-env")]);
    let dotenv = vars(&[("A", "from-file"), ("B", "file-only")]);
    assert_eq!(get_var(&env, &dotenv, "A").unwrap(), "from-env");
    assert_eq!(get_var(&env, &dotenv, "B").unwrap(), "file-only");
    assert!(get_var(&env, &dotenv, "C").is_none());
}

#[test]
fn loads_with_defaults() {
    let env = vars(&[
        ("INTER_VM_BEARER_SHA256", DIGEST_HEX),
        ("CLIMICROSOFT365_ACCESS_TOKEN", "graph-placeholder"),
    ]);
    let config = Config::load(None, &env).ok().unwrap();
    assert_eq!(config.inter_vm_bearer_sha256, decode_sha256(DIGEST_HEX).ok().unwrap());
    assert_eq!(config.graph_access_token_placeholder, "graph-placeholder");
    assert_eq!(config.listen_addr, "127.0.0.1:18081");
    assert_eq!(config.graph_api_base, "https://graph.microsoft.com");
}

#[test]
fn loads_from_dotenv_and_environment() {
    let env = vars(&[("LISTEN_ADDR", "0.0.0.0:9000")]);
    let file = format!(
        "INTER_VM_BEARER_SHA256={DIGEST_HEX}\nCLIMICROSOFT365_ACCESS_TOKEN=tok\nLISTEN_ADDR=1.2.3.4:5\nGRAPH_API_BASE=http://127.0.0.1:1\n"
    );
    let config = Config::load(Some(&file), &env).ok().unwrap();
    assert_eq!(config.graph_access_token_placeholder, "tok");
    assert_eq!(config.listen_addr, "0.0.0.0:9000");
    assert_eq!(config.graph_api_base, "http://127.0.0.1:1");
}

#[test]
fn reports_missing_and_malformed_settings() {
    let none = vars(&[]);
    assert_eq!(Config::load(None, &none).err().unwrap().0, "INTER_VM_BEARER_SHA256 not set");
    let bad = vars(&[("INTER_VM_BEARER_SHA256", "abc"), ("CLIMICROSOFT365_ACCESS_TOKEN", "t")]);
    assert_eq!(
        Config::load(None, &bad).err().unwrap().0,
        "INTER_VM_BEARER_SHA256 must be exactly 64 hexadecimal characters"
    );
    let no_token = vars(&[("INTER_VM_BEARER_SHA256", DIGEST_HEX)]);
    assert_eq!(Config::load(None, &no_token).err().unwrap().0, "CLIMICROSOFT365_ACCESS_TOKEN not set");
}
