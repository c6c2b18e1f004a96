use ryuuji::city::city_hash_64;
use ryuuji::gecko::{canonical_text, discovered, executable, file_name, hash_of, is_install_hash};

fn hex(bytes: &[u8]) -> String {
    format!("{:016X}", city_hash_64(bytes))
}

fn utf16(text: &str) -> Vec<u8> {
    text.encode_utf16().flat_map(u16::to_le_bytes).collect()
}

#[test]
fn librewolfs_install_directory_hashes_to_its_observed_app_id() {
    let bytes = utf16(r"C:\Program Files\LibreWolf");
    assert_eq!(bytes.len(), 52);
    assert_eq!(hex(&bytes), "83C1C0F3FA8524B1");
}

#[test]
fn the_empty_input_is_k2() {
    assert_eq!(hex(b""), "9AE16A3B2F90404F");
}

#[test]
fn every_length_branch_matches_the_reference() {
    for (input, expected) in [
        (&b"a"[..], "2420662CD003ACFA"),
        (b"abc", "3A912F483A4ECE31"),
        (b"abcd", "F75A3B8A1499428D"),
        (b"hello", "23C7ADA5F323C8DF"),
        (b"hello wor", "177B274F02111477"),
        (b"0123456789abcdef", "099D21E99DAC3317"),
        (b"0123456789abcdefg", "0AFFC467E579303A"),
        (b"The quick brown fox jumps over", "63EFFFE9741FB54D"),
        (b"The quick brown fox jumps over the lazy dog", "E7BA87D247C31277"),
    ] {
        assert_eq!(hex(input), expected, "{input:?}");
    }
    let counting: Vec<u8> = (0..65).collect();
    assert_eq!(hex(&counting), "510F4EF776C6476D");
    assert_eq!(hex(&[b'x'; 100]), "72D22BBCC6188483");
}

#[test]
fn a_per_user_firefox_path_takes_the_long_branch() {
    let bytes = utf16(r"C:\Users\umaru\AppData\Local\Mozilla Firefox");
    assert!(bytes.len() > 64);
    assert_eq!(hex(&bytes), "D52277D1BA334E98");
}

#[test]
fn librewolfs_install_directory_gives_its_observed_app_id() {
    assert_eq!(hash_of(r"C:\Program Files\LibreWolf"), "83C1C0F3FA8524B1");
}

#[test]
fn install_id_is_stable_and_follows_the_path() {
    let one = hash_of(r"C:\Temp\One");
    let two = hash_of(r"C:\Temp\Two");
    assert_eq!(one, hash_of(r"C:\Temp\One"));
    assert_ne!(one, two);
    assert_eq!(one.len(), 16);
    assert_eq!(hash_of(r"C:\Users\umaru\AppData\Local\Mozilla Firefox"), "D52277D1BA334E98");
}

#[test]
fn a_path_beyond_the_basic_plane_hashes_its_surrogate_pairs() {
    let text = "C:\\\u{1F600}";
    assert_eq!(hash_of(text), hex(&utf16(text)));
}

#[test]
fn an_install_hash_is_sixteen_hex_digits_with_or_without_the_private_suffix() {
    assert!(is_install_hash("83C1C0F3FA8524B1"));
    assert!(is_install_hash("83C1C0F3FA8524B1;PrivateBrowsingAUMID"));
    assert!(!is_install_hash("Brave.TOV6AIDIK4HLZU7TATPUSWV77Q"));
    assert!(!is_install_hash("MSEdge"));
    assert!(!is_install_hash("83C1C0F3FA8524B"));
}

#[test]
fn executable_reads_quoted_bare_and_argumented_commands() {
    for (command, expected) in [
        (
            r#""C:\Program Files (x86)\Microsoft\Edge\Application\msedge.exe""#,
            r"C:\Program Files (x86)\Microsoft\Edge\Application\msedge.exe",
        ),
        (r"C:\Program Files\LibreWolf\librewolf.exe", r"C:\Program Files\LibreWolf\librewolf.exe"),
        (
            r#""C:\Users\u\AppData\Local\Chromium\Application\chrome.exe" --flag"#,
            r"C:\Users\u\AppData\Local\Chromium\Application\chrome.exe",
        ),
        (r"C:\Tools\Waterfox\Waterfox.EXE -osint", r"C:\Tools\Waterfox\Waterfox.EXE"),
    ] {
        assert_eq!(executable(command), Some(expected.to_owned()), "{command}");
    }
    assert_eq!(executable(""), None);
    assert_eq!(executable("\"\""), None);
    assert_eq!(executable("  plain --arg "), Some("plain".to_owned()));
}

#[test]
fn a_discovered_browser_is_named_by_its_display_name_and_hashed_by_its_directory() {
    let player = discovered(
        "LibreWolf".to_owned(),
        Some("LibreWolf Browser".to_owned()),
        "librewolf.exe".to_owned(),
        r"C:\Program Files\LibreWolf",
        None,
    );
    assert_eq!(player.name, "LibreWolf Browser");
    assert_eq!(player.smtc_app_ids, ["83C1C0F3FA8524B1"]);
    assert_eq!(player.executables, ["librewolf.exe"]);
    assert!(player.mpris_ids.is_empty());
    assert!(!player.hidden);
}

#[test]
fn a_pinned_id_wins_and_an_empty_display_name_falls_back_to_the_key() {
    let player = discovered(
        "Firefox-308046B0AF4A39CB".to_owned(),
        Some(String::new()),
        "firefox.exe".to_owned(),
        r"C:\Program Files\Mozilla Firefox",
        Some("308046B0AF4A39CB".to_owned()),
    );
    assert_eq!(player.name, "Firefox-308046B0AF4A39CB");
    assert_eq!(player.smtc_app_ids, ["308046B0AF4A39CB"]);
}

#[test]
fn the_canonical_spelling_drops_the_verbatim_prefix_and_trailing_separators() {
    assert_eq!(canonical_text(r"\\?\C:\Program Files\LibreWolf\"), r"C:\Program Files\LibreWolf");
    assert_eq!(canonical_text(r"C:\Games"), r"C:\Games");
    assert_eq!(canonical_text(r"D:\Tools\\"), r"D:\Tools");
}

#[test]
fn the_file_name_is_what_follows_the_last_backslash() {
    assert_eq!(file_name(r"\Device\HarddiskVolume3\mpv\mpv.exe"), "mpv.exe");
    assert_eq!(file_name("mpv.exe"), "mpv.exe");
    assert_eq!(file_name(r"C:\dir\"), "");
}
