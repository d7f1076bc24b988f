use localview::chromium::{
    chromium_executable_candidates, discover_chromium_executable_with, platform_join,
    png_dimensions, validate_loopback_url, validate_screenshot_bytes, validate_screenshot_request,
    BoundedReader, ChromiumDiscoveryContext, ChromiumExecutorError, ChromiumPlatform,
    ChromiumScreenshotRequest,
};
use localview::web_url::UrlParts;

fn path(value: &str) -> String {
    value.to_string()
}

fn existing<'a>(paths: &'a [&'a str]) -> impl Fn(&String) -> bool + 'a {
    move |candidate| paths.iter().any(|expected| candidate == expected)
}

#[test]
fn explicit_process_configuration_has_highest_priority_but_must_exist() {
    let context = ChromiumDiscoveryContext {
        explicit_executable: Some(path("/opt/localview/chrome")),
        path_dirs: vec![path("/usr/bin")],
        ..Default::default()
    };
    let selected = discover_chromium_executable_with(
        ChromiumPlatform::Linux,
        &context,
        existing(&["/opt/localview/chrome", "/usr/bin/google-chrome"]),
    );
    assert_eq!(selected, Some(path("/opt/localview/chrome")));
    let fallback = discover_chromium_executable_with(
        ChromiumPlatform::Linux,
        &context,
        existing(&["/usr/bin/google-chrome"]),
    );
    assert_eq!(fallback, Some(path("/usr/bin/google-chrome")));
}

#[test]
fn linux_prefers_google_chrome_then_chromium_from_path() {
    let context = ChromiumDiscoveryContext {
        path_dirs: vec![path("/custom/bin"), path("/usr/bin")],
        ..Default::default()
    };
    let chrome = discover_chromium_executable_with(
        ChromiumPlatform::Linux,
        &context,
        existing(&["/custom/bin/chromium", "/usr/bin/google-chrome", "/usr/bin/chromium"]),
    );
    assert_eq!(chrome, Some(path("/usr/bin/google-chrome")));
    let chromium = discover_chromium_executable_with(
        ChromiumPlatform::Linux,
        &context,
        existing(&["/custom/bin/chromium", "/usr/bin/chromium"]),
    );
    assert_eq!(chromium, Some(path("/custom/bin/chromium")));
}

#[test]
fn macos_checks_system_and_user_application_bundles_before_path() {
    let context = ChromiumDiscoveryContext {
        path_dirs: vec![path("/usr/local/bin")],
        home_dir: Some(path("/Users/dev")),
        ..Default::default()
    };
    let system = discover_chromium_executable_with(
        ChromiumPlatform::Macos,
        &context,
        existing(&[
            "/Applications/Google Chrome.app/Contents/MacOS/Google Chrome",
            "/usr/local/bin/chromium",
        ]),
    );
    assert_eq!(system, Some(path("/Applications/Google Chrome.app/Contents/MacOS/Google Chrome")));
    let user = discover_chromium_executable_with(
        ChromiumPlatform::Macos,
        &context,
        existing(&[
            "/Users/dev/Applications/Chromium.app/Contents/MacOS/Chromium",
            "/usr/local/bin/chromium",
        ]),
    );
    assert_eq!(user, Some(path("/Users/dev/Applications/Chromium.app/Contents/MacOS/Chromium")));
}

#[test]
fn windows_prefers_local_chrome_then_program_files_then_path() {
    let context = ChromiumDiscoveryContext {
        path_dirs: vec![path(r"C:\Tools")],
        local_app_data: Some(path(r"C:\Users\dev\AppData\Local")),
        program_files: Some(path(r"C:\Program Files")),
        program_files_x86: Some(path(r"C:\Program Files (x86)")),
        ..Default::default()
    };
    let local = discover_chromium_executable_with(
        ChromiumPlatform::Windows,
        &context,
        existing(&[
            r"C:\Users\dev\AppData\Local\Google\Chrome\Application\chrome.exe",
            r"C:\Program Files\Google\Chrome\Application\chrome.exe",
            r"C:\Tools\chrome.exe",
        ]),
    );
    assert_eq!(local, Some(path(r"C:\Users\dev\AppData\Local\Google\Chrome\Application\chrome.exe")));
    let system = discover_chromium_executable_with(
        ChromiumPlatform::Windows,
        &context,
        existing(&[r"C:\Program Files\Google\Chrome\Application\chrome.exe", r"C:\Tools\chrome.exe"]),
    );
    assert_eq!(system, Some(path(r"C:\Program Files\Google\Chrome\Application\chrome.exe")));
}

#[test]
fn discovery_fails_closed_when_no_candidate_exists() {
    let context = ChromiumDiscoveryContext { path_dirs: vec![path("/usr/bin")], ..Default::default() };
    assert_eq!(discover_chromium_executable_with(ChromiumPlatform::Linux, &context, |_| false), None);
}

#[test]
fn candidates_are_listed_once_in_priority_order() {
    let context = ChromiumDiscoveryContext {
        explicit_executable: Some(path("/usr/bin/chromium")),
        path_dirs: vec![path("/usr/bin/"), path("/usr/bin")],
        ..Default::default()
    };
    let candidates = chromium_executable_candidates(ChromiumPlatform::Linux, &context);
    assert_eq!(
        candidates,
        vec![
            path("/usr/bin/chromium"),
            path("/usr/bin/google-chrome"),
            path("/usr/bin/google-chrome-stable"),
            path("/usr/bin/chromium-browser"),
        ]
    );
}

#[test]
fn platform_join_uses_the_platform_separator() {
    assert_eq!(platform_join(ChromiumPlatform::Windows, &path(r"C:\A\/"), "b/c.exe"), r"C:\A\b\c.exe");
    assert_eq!(platform_join(ChromiumPlatform::Linux, &path("/a//"), r"b\c"), "/a/b/c");
}

#[test]
fn chromium_targets_are_strictly_loopback_http_or_https() {
    for accepted in ["http://127.0.0.1:5173/", "https://localhost:3000/settings", "http://[::1]:8080/"] {
        assert!(validate_loopback_url(&UrlParts::parse(accepted).expect("accepted URL")), "{accepted} should be admitted");
    }
    for rejected in [
        "https://example.com/",
        "file:///tmp/index.html",
        "http://user@localhost:3000/",
        "http://192.168.1.50:5173/",
    ] {
        assert!(!validate_loopback_url(&UrlParts::parse(rejected).expect("rejected URL")), "{rejected} must fail closed");
    }
}

fn png(width: u32, height: u32) -> Vec<u8> {
    let mut bytes = vec![137, 80, 78, 71, 13, 10, 26, 10, 0, 0, 0, 13];
    bytes.extend_from_slice(b"IHDR");
    bytes.extend_from_slice(&width.to_be_bytes());
    bytes.extend_from_slice(&height.to_be_bytes());
    bytes
}

#[test]
fn screenshot_requests_and_png_headers_are_checked() {
    let ok = ChromiumScreenshotRequest { pixel_width: 800, pixel_height: 600, max_png_bytes: 1024 };
    assert!(validate_screenshot_request(&ok).is_ok());
    let too_many = ChromiumScreenshotRequest { pixel_width: 8192, pixel_height: 8192, max_png_bytes: 1 };
    assert_eq!(validate_screenshot_request(&too_many), Err(ChromiumExecutorError::InvalidScreenshot));
    assert_eq!(png_dimensions(&png(800, 600)), Ok((800, 600)));
    assert_eq!(png_dimensions(&png(0, 600)), Err(ChromiumExecutorError::InvalidScreenshot));
    assert_eq!(validate_screenshot_bytes(&png(800, 600), &ok), Ok((800, 600)));
    assert_eq!(validate_screenshot_bytes(&png(800, 601), &ok), Err(ChromiumExecutorError::InvalidScreenshot));
    let tiny = ChromiumScreenshotRequest { max_png_bytes: 10, ..ok };
    assert_eq!(validate_screenshot_bytes(&png(800, 600), &tiny), Err(ChromiumExecutorError::ScreenshotTooLarge));
}

#[test]
fn bounded_reader_keeps_a_prefix_and_counts_everything() {
    let mut reader = BoundedReader::new(5);
    reader.absorb(b"abc");
    reader.absorb(b"defg");
    let out = reader.finish();
    assert_eq!(out.retained, b"abcde".to_vec());
    assert_eq!(out.total_bytes, 7);
    assert!(out.truncated);
}

#[test]
fn candidates_that_are_the_same_path_are_listed_once() {
    let context = ChromiumDiscoveryContext {
        explicit_executable: Some(path("/usr/bin//./chromium/")),
        path_dirs: vec![path("/usr/bin")],
        ..Default::default()
    };
    let candidates = chromium_executable_candidates(ChromiumPlatform::Linux, &context);
    assert_eq!(
        candidates,
        vec![
            path("/usr/bin//./chromium/"),
            path("/usr/bin/google-chrome"),
            path("/usr/bin/google-chrome-stable"),
            path("/usr/bin/chromium-browser"),
        ]
    );
}

#[test]
fn discovery_probe_may_keep_state() {
    let context = ChromiumDiscoveryContext { path_dirs: vec![path("/usr/bin")], ..Default::default() };
    let mut probed = Vec::new();
    let found = discover_chromium_executable_with(ChromiumPlatform::Linux, &context, |candidate: &String| {
        probed.push(candidate.clone());
        candidate.ends_with("chromium")
    });
    assert_eq!(found, Some(path("/usr/bin/chromium")));
    assert_eq!(probed.len(), 3);
}
