use zr_proxy::proxy::is_valid_proxy_url;

#[test]
fn http_and_socks_addresses_are_accepted() {
    assert!(is_valid_proxy_url("http://127.0.0.1:7890"));
    assert!(is_valid_proxy_url("https://proxy.example.com:443/"));
    assert!(is_valid_proxy_url("socks5://127.0.0.1:1080"));
    assert!(is_valid_proxy_url("socks4://10.0.0.1:1080"));
}

#[test]
fn other_addresses_are_refused() {
    assert!(!is_valid_proxy_url("not a url"));
    assert!(!is_valid_proxy_url("http://"));
    assert!(!is_valid_proxy_url("ftp://host:21"));
    assert!(!is_valid_proxy_url("http://a b"));
    assert!(!is_valid_proxy_url("HTTP://host"));
    assert!(!is_valid_proxy_url(""));
    assert!(!is_valid_proxy_url("127.0.0.1:7890"));
}
