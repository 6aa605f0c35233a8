use sectrails::record::Record;
use sectrails::session::{Cookie, SameSite};

fn parse_line(line: &str) -> (Vec<String>, String, Vec<String>, isize) {
    let f: Vec<&str> = line.split(',').collect();
    assert_eq!(f.len(), 4);
    let list = |s: &str| -> Vec<String> {
        if s.is_empty() {
            vec![]
        } else {
            s.split('|').map(|x| x.to_string()).collect()
        }
    };
    (list(f[0]), f[1].to_string(), list(f[2]), f[3].parse().unwrap())
}

#[test]
fn csv_line_joins_providers() {
    let r = Record {
        host_provider: vec!["Cloudflare".to_string(), "Fastly".to_string()],
        hostname: "team.net".to_string(),
        mail_provider: vec![None, Some("Internap".to_string())],
        open_page_rank: Some(244568),
    };
    assert_eq!(r.as_csv(), "Cloudflare|Fastly,team.net,|Internap,244568");
}

#[test]
fn csv_line_defaults() {
    let r = Record {
        host_provider: vec![],
        hostname: "x.org".to_string(),
        mail_provider: vec![],
        open_page_rank: None,
    };
    assert_eq!(r.as_csv(), ",x.org,,0");
    let r = Record { open_page_rank: Some(-305), ..r };
    assert_eq!(r.as_csv(), ",x.org,,-305");
    let r = Record { open_page_rank: Some(isize::MIN), ..r };
    assert_eq!(r.as_csv(), format!(",x.org,,{}", isize::MIN));
}

#[test]
fn csv_round_trip() {
    let r = Record {
        host_provider: vec!["Amazon.com Inc.".to_string(), "Google LLC".to_string()],
        hostname: "teamtailor.com".to_string(),
        mail_provider: vec![Some("Google LLC".to_string()), Some("Korea Telecom".to_string())],
        open_page_rank: Some(256957),
    };
    let (hosts, name, mails, rank) = parse_line(&r.as_csv());
    assert_eq!(hosts, r.host_provider);
    assert_eq!(name, r.hostname);
    assert_eq!(mails, vec!["Google LLC", "Korea Telecom"]);
    assert_eq!(rank, 256957);
}

#[test]
fn csv_header_names_columns() {
    assert_eq!(Record::csv_header(), "host_provider,domain,mail_provider,rank");
}

fn cookie(name: &str) -> Cookie {
    Cookie {
        name: name.to_string(),
        value: "v1".to_string(),
        domain: String::new(),
        path: String::new(),
        size: 4,
        http_only: None,
        secure: false,
        session: true,
        same_site: None,
        priority: None,
        same_party: None,
        source_scheme: None,
        partition_key: None,
        partition_key_opaque: None,
    }
}

#[test]
fn cookie_string_minimal_and_full() {
    assert_eq!(cookie("sid").to_cookie_str(), "sid=v1");
    let c = Cookie {
        path: "/".to_string(),
        domain: ".securitytrails.com".to_string(),
        secure: true,
        http_only: Some(true),
        same_site: Some(SameSite::Unrestricted),
        ..cookie("sid")
    };
    assert_eq!(
        c.to_cookie_str(),
        "sid=v1; Path=/; Domain=.securitytrails.com; Secure; HttpOnly; SameSite=None"
    );
    let c = Cookie { http_only: Some(false), same_site: Some(SameSite::Lax), ..cookie("a") };
    assert_eq!(c.to_cookie_str(), "a=v1; SameSite=Lax");
}
