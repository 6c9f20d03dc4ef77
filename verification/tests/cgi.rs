use frankenrust::cgi::{
    common_header_variable, ensure_leading_slash, join_header_values, normalize_split_path,
    split_cgi_path, split_host_port, split_pos, split_remote_addr, uncommon_header_key,
    InvalidSplitPath, COMMON_HEADERS,
};
use frankenrust::path::{clean_path, sanitized_path_join};

#[test]
fn ensure_leading_slash_matches_upstream_table() {
    let cases = [
        ("/index.php", "/index.php"),
        ("index.php", "/index.php"),
        ("/", "/"),
        ("", ""),
        ("/path/to/script.php", "/path/to/script.php"),
        ("path/to/script.php", "/path/to/script.php"),
        ("/index.php/path/info", "/index.php/path/info"),
        ("index.php/path/info", "/index.php/path/info"),
    ];
    for (input, expected) in cases {
        assert_eq!(ensure_leading_slash(input), expected, "input {input:?}");
    }
}


#[test]
fn split_remote_addr_matches_upstream_table() {
    let cases: &[(&str, &str, &str, &str)] = &[
        ("ipv4 with port", "1.2.3.4:5", "1.2.3.4", "5"),
        ("ipv6 bracketed with port", "[::1]:443", "::1", "443"),
        (
            "ipv6 zone bracketed with port",
            "[fe80::1%eth0]:443",
            "fe80::1%eth0",
            "443",
        ),
        ("ipv4 without port", "192.168.0.1", "192.168.0.1", ""),
        ("empty", "", "", ""),
        ("only colon", ":", "", ""),
        ("lone open bracket", "[", "[", ""),
        ("open bracket with port", "[:9000", "[", "9000"),
        ("empty brackets", "[]", "", ""),
        ("opening bracket with colon", "[:", "[", ""),
        ("unterminated bracket with port", "[::1:80", "[::1", "80"),
    ];
    for (name, addr, want_ip, want_port) in cases {
        let (ip, port) = split_remote_addr(addr);
        assert_eq!(&ip, want_ip, "{name}: ip for {addr:?}");
        assert_eq!(&port, want_port, "{name}: port for {addr:?}");
    }
}


#[test]
fn split_host_port_matches_go_net_split_host_port() {
    assert_eq!(
        split_host_port("example.com:8080"),
        Some(("example.com".to_string(), "8080".to_string()))
    );
    assert_eq!(
        split_host_port("[::1]:80"),
        Some(("::1".to_string(), "80".to_string())),
        "brackets stripped on success"
    );
    assert_eq!(
        split_host_port("[::1]"),
        None,
        "missing port -- caller falls back to request.Host verbatim, brackets kept"
    );
}


#[test]
fn split_pos_matches_upstream_table() {
    let php = vec![".php".to_string()];
    let php_phtml = vec![".php".to_string(), ".phtml".to_string()];

    let cases: &[(&str, &[String], isize)] = &[
        ("/path/to/script.php", &php, 19),
        ("/path/to/script.php/some/path", &php, 19),
        ("/path/to/script.PHP", &php, 19),
        ("/path/to/script.PhP/info", &php, 19),
        ("/path/to/script.txt", &php, -1),
        ("/path/to/script.php", &[], 0),
        ("/path/to/script.php", &php_phtml, 19),
        ("/path/to/script.phtml", &php_phtml, 21),
        ("/ȺȺȺȺshell.php", &php, 18),
        ("/ȺȺȺȺshell.php/path/info", &php, 18),
        ("/ȺȺȺȺshell.php.txt.php", &php, 18),
        ("/ȺȺȺȺshell.PHP", &php, 18),
        ("/path/Ⱥtest/script.php", &php, 23),
        ("/Ⱥ/script.php", &php, 14),
        ("/İtest.php", &php, 11),
        ("/PATH/TO/SCRIPT.PHP/INFO", &php, 19),
        ("/index.php", &php, 10),
        ("/test.php.bak", &php, 9),
        ("/PoC-match-unset.¡.txt", &php, -1),
        ("/script.p\u{a1}p", &php, -1),
        ("/shell\u{fe52}php", &php, -1),
        ("/shell\u{ff0e}php", &php, -1),
        ("/shell.\u{ff50}hp", &php, -1),
        ("/shell.\u{24df}\u{24d7}\u{24df}", &php, -1),
        ("/shell.\u{1d5fd}\u{1d5f5}\u{1d5fd}", &php, -1),
        ("/shell.\u{1d4c5}\u{1d4bd}\u{1d4c5}", &php, -1),
        (
            "/shell.\u{24df}\u{24d7}\u{24df}.anything-after-payload.php",
            &php,
            43,
        ),
    ];

    for (path, split_path, want) in cases {
        assert_eq!(split_pos(path, split_path), *want, "path {path:?}");
    }
}


#[test]
fn split_pos_unicode_case_folding_length_expansion_regression() {
    let path = "/ȺȺȺȺshell.php.txt.php";
    let split = vec![".php".to_string()];
    assert_eq!(split_pos(path, &split), 18);
}


#[test]
fn split_pos_security_regression_unicode_bypass() {
    let split = vec![".php".to_string()];
    let payloads: &[&str] = &[
        "/PoC-match-unset.\u{a1}.txt",
        "/shell\u{fe52}php",
        "/shell\u{ff0e}php",
        "/shell.\u{ff50}hp",
        "/shell.p\u{ff48}p",
        "/shell.ph\u{ff50}",
        "/shell.\u{1d5c1}\u{1d5b5}\u{1d5c1}",
        "/shell.\u{1d5fd}\u{1d5f5}\u{1d5fd}",
        "/shell.\u{1d4c5}\u{1d4bd}\u{1d4c5}",
        "/shell.\u{24df}\u{24d7}\u{24df}",
    ];
    for payload in payloads {
        assert_eq!(
            split_pos(payload, &split),
            -1,
            "payload {payload:?} must not match"
        );
    }
}


#[test]
fn sanitized_path_join_rejects_dotdot_traversal() {
    assert_eq!(
        sanitized_path_join("/var/www", "../../etc/passwd"),
        "/var/www/etc/passwd"
    );
    assert_eq!(
        sanitized_path_join("/var/www", "/../../../etc/passwd"),
        "/var/www/etc/passwd"
    );
    assert_eq!(sanitized_path_join("/var/www", "/a/../../b"), "/var/www/b");
}

#[test]
fn sanitized_path_join_handles_absolute_request_paths() {
    assert_eq!(
        sanitized_path_join("/var/www", "/index.php"),
        "/var/www/index.php"
    );
    assert_eq!(
        sanitized_path_join("/var/www", "index.php"),
        "/var/www/index.php"
    );
    assert_eq!(sanitized_path_join("/var/www", "/"), "/var/www");
}

#[test]
fn sanitized_path_join_does_not_decode_percent_encoded_separators() {
    let joined = sanitized_path_join("/var/www", "/foo%2f..%2f..%2fetc%2fpasswd");
    assert_eq!(joined, "/var/www/foo%2f..%2f..%2fetc%2fpasswd");
    assert!(joined.starts_with("/var/www/"));
}

#[test]
fn sanitized_path_join_preserves_trailing_slash() {
    assert_eq!(sanitized_path_join("/var/www", "/dir/"), "/var/www/dir/");
}

#[test]
fn sanitized_path_join_defaults_empty_root_to_dot() {
    assert_eq!(sanitized_path_join("", "/etc/passwd"), "etc/passwd");
}

#[test]
fn sanitized_path_join_resolves_dotdot_in_the_document_root() {
    assert_eq!(
        sanitized_path_join("/var/www/..", "/index.php"),
        "/var/index.php"
    );
    assert_eq!(
        sanitized_path_join("/var/www/../www", "/a.php"),
        "/var/www/a.php"
    );
}

#[test]
fn clean_path_matches_go_filepath_clean() {
    let cases = [
        ("", "."),
        ("abc", "abc"),
        ("abc/def", "abc/def"),
        ("a/b/c", "a/b/c"),
        (".", "."),
        ("..", ".."),
        ("../..", "../.."),
        ("../../abc", "../../abc"),
        ("/abc", "/abc"),
        ("/", "/"),
        ("abc/", "abc"),
        ("abc/def/", "abc/def"),
        ("a/b/c/", "a/b/c"),
        ("./", "."),
        ("../", ".."),
        ("../../", "../.."),
        ("/abc/", "/abc"),
        ("abc//def//ghi", "abc/def/ghi"),
        ("//abc", "/abc"),
        ("///abc", "/abc"),
        ("//abc//", "/abc"),
        ("abc//", "abc"),
        ("abc/./def", "abc/def"),
        ("/./abc/def", "/abc/def"),
        ("abc/.", "abc"),
        ("abc/def/ghi/../jkl", "abc/def/jkl"),
        ("abc/def/../ghi/../jkl", "abc/jkl"),
        ("abc/def/..", "abc"),
        ("abc/def/../..", "."),
        ("/abc/def/../..", "/"),
        ("abc/def/../../..", ".."),
        ("/abc/def/../../..", "/"),
        ("abc/def/../../../ghi/jkl/../../../mno", "../../mno"),
        ("/var/www/..", "/var"),
        ("/a/b/..", "/a"),
        ("a/b/..", "a"),
        ("/a/b/../c", "/a/c"),
    ];
    for (input, expected) in cases {
        assert_eq!(clean_path(input), expected, "clean_path({input:?})");
    }
}


#[test]
fn normalize_split_path_matches_upstream_table() {
    assert_eq!(
        normalize_split_path(vec![".php".to_string()]).unwrap(),
        vec![".php".to_string()]
    );
    assert_eq!(
        normalize_split_path(vec![".PHP".to_string()]).unwrap(),
        vec![".php".to_string()]
    );
    assert_eq!(
        normalize_split_path(vec![".PhP".to_string(), ".PHTML".to_string()]).unwrap(),
        vec![".php".to_string(), ".phtml".to_string()]
    );
    assert_eq!(
        normalize_split_path(Vec::new()).unwrap(),
        Vec::<String>::new()
    );
    assert_eq!(
        normalize_split_path(vec![".php".to_string(), ".Ⱥphp".to_string()]),
        Err(InvalidSplitPath)
    );
    assert_eq!(
        normalize_split_path(vec![".phpⱥ".to_string()]),
        Err(InvalidSplitPath)
    );
}

#[test]
fn split_pos_matches_a_normalised_uppercase_split_path() {
    let raw = vec![".PHP".to_string()];
    assert_eq!(split_pos("/index.php", &raw), -1);

    let normalised = normalize_split_path(raw).unwrap();
    assert_eq!(split_pos("/index.php", &normalised), 10);
}


#[test]
fn uncommon_header_key_maps_accept_encoding() {
    let key = uncommon_header_key("Accept-Encoding");
    assert_eq!(key, b"HTTP_ACCEPT_ENCODING\0");
}

#[test]
fn uncommon_header_key_agrees_with_common_headers_table_for_every_entry() {
    for (name, php_key) in COMMON_HEADERS {
        let mut mangled = uncommon_header_key(name);
        assert_eq!(mangled.pop(), Some(0), "must be NUL-terminated: {name}");
        assert_eq!(
            String::from_utf8(mangled).unwrap(),
            php_key,
            "generic mangler disagrees with the pre-interned table for {name}"
        );
    }
}

#[test]
fn the_error_of_a_split_path_says_what_is_wrong() {
    assert_eq!(
        InvalidSplitPath.message(),
        "split path contains non-ASCII characters"
    );
}

#[test]
fn cleaning_a_clean_path_changes_nothing() {
    for path in ["a/../b", "/x//y/./z/", "../../q", "", "/..", "a/b/../../.."] {
        let once = clean_path(path);
        assert_eq!(clean_path(&once), once);
    }
}

#[test]
fn a_joined_path_stays_below_its_root() {
    for path in ["../x", "/../../x", "a/../../../x", "..", "/./../y"] {
        let joined = sanitized_path_join("/srv/app", path);
        assert!(joined == "/srv/app" || joined.starts_with("/srv/app/"), "{joined}");
    }
}

#[test]
fn a_path_is_split_into_script_and_rest() {
    let php = vec![".php".to_string()];
    let (doc_uri, path_info, script_name, script_filename) =
        split_cgi_path("/blog/index.php/a/b", &php, "/var/www");
    assert_eq!(doc_uri, "/blog/index.php");
    assert_eq!(path_info, "/a/b");
    assert_eq!(script_name, "/blog/index.php");
    assert_eq!(script_filename, "/var/www/blog/index.php");
    assert_eq!(format!("{script_name}{path_info}"), "/blog/index.php/a/b");
}

#[test]
fn a_path_without_a_script_is_all_script() {
    let php = vec![".php".to_string()];
    let (doc_uri, path_info, script_name, script_filename) =
        split_cgi_path("/readme", &php, "/var/www");
    assert_eq!(doc_uri, "");
    assert_eq!(path_info, "");
    assert_eq!(script_name, "/readme");
    assert_eq!(script_filename, "/var/www/readme");
}

#[test]
fn a_normal_split_entry_matches_without_regard_to_case() {
    let php = normalize_split_path(vec![".PHP".to_string()]).unwrap();
    assert_eq!(split_pos("/a.PHP/x", &php), split_pos("/a.php/x", &php));
}

#[test]
fn a_plain_host_and_a_bracketed_one_are_parted_from_their_port() {
    assert_eq!(
        split_host_port("example.org:81"),
        Some(("example.org".to_string(), "81".to_string()))
    );
    assert_eq!(
        split_host_port("[2001:db8::1]:81"),
        Some(("2001:db8::1".to_string(), "81".to_string()))
    );
    assert_eq!(split_host_port("a:b:c"), None);
    assert_eq!(split_host_port("[a"), None);
}

#[test]
fn a_common_header_has_its_variable_and_others_are_mangled() {
    assert_eq!(common_header_variable("Accept"), Some("HTTP_ACCEPT"));
    assert_eq!(common_header_variable("X-Unheard-Of"), None);
    assert_eq!(uncommon_header_key("X-Unheard-Of"), b"HTTP_X_UNHEARD_OF\0");
}

#[test]
fn values_of_a_header_are_joined_with_a_comma_and_a_space() {
    assert_eq!(join_header_values(&[]), b"");
    assert_eq!(join_header_values(&[b"a".to_vec()]), b"a");
    assert_eq!(
        join_header_values(&[b"a".to_vec(), Vec::new(), b"c".to_vec()]),
        b"a, , c"
    );
}
