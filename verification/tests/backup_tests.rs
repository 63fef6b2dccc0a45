use github_backup::config::parsed_args;
use github_backup::config::DownloadPolicy;
use github_backup::config::DownloadTally;
use github_backup::config::resolve_credential;
use github_backup::headers::auth_headers;
use github_backup::listing::listing_request_url;
use github_backup::listing::resolve_archive_url;
use github_backup::listing::resolve_listing;
use github_backup::listing::RepoListing;
use github_backup::naming::archive_file_name;
use github_backup::naming::repo_identifier;
use github_backup::naming::sanitize_identifier;
use github_backup::pager::replay_listing;
use github_backup::pager::Pager;
use github_backup::text::chars_of;
use github_backup::text::replace_str;
use github_backup::text::string_from_chars;

#[test]
fn resolves_example_template() {
    let url = resolve_archive_url(
        "https://api.example.com/repos/acme/widget/{archive_format}{/ref}",
        "main",
    );
    assert_eq!(url, "https://api.example.com/repos/acme/widget/zipball/main");
}

#[test]
fn resolved_template_has_no_placeholder_left() {
    let url = resolve_archive_url(
        "https://api.example.com/repos/acme/widget/{archive_format}{/ref}",
        "release-2024",
    );
    assert!(!url.contains("{archive_format}"));
    assert!(!url.contains("{/ref}"));
    assert!(url.contains("/zipball/release-2024"));
}

#[test]
fn resolves_whole_listing_page() {
    let entries = vec![
        RepoListing {
            archive_url: String::from(
                "https://api.github.com/repos/acme/widget/{archive_format}{/ref}",
            ),
            default_branch: String::from("main"),
        },
        RepoListing {
            archive_url: String::from(
                "https://api.github.com/repos/acme/gadget/{archive_format}{/ref}",
            ),
            default_branch: String::from("develop"),
        },
    ];
    let urls = resolve_listing(&entries);
    assert_eq!(urls.len(), 2);
    assert_eq!(urls[0], "https://api.github.com/repos/acme/widget/zipball/main");
    assert_eq!(urls[1], "https://api.github.com/repos/acme/gadget/zipball/develop");
}

#[test]
fn listing_url_for_first_page() {
    assert_eq!(
        listing_request_url(1),
        "https://api.github.com/user/repos?per_page=100&type=owner&page=1&sort=updated"
    );
}

#[test]
fn listing_url_for_multi_digit_page() {
    assert_eq!(
        listing_request_url(137),
        "https://api.github.com/user/repos?per_page=100&type=owner&page=137&sort=updated"
    );
}

#[test]
fn identifier_from_archive_url() {
    let id = repo_identifier("https://api.github.com/repos/acme/widget/zipball/main");
    assert_eq!(id, "acme/widget@main");
}

#[test]
fn file_name_for_identifier() {
    assert_eq!(archive_file_name("acme/widget@main"), "acme_widget_main.zip");
}

#[test]
fn sanitization_replaces_every_reserved_character() {
    assert_eq!(sanitize_identifier("a/b@c:d.e f"), "a_b_c_d_e_f");
}

#[test]
fn sanitization_is_idempotent_on_concrete_input() {
    let once = sanitize_identifier("owner/repo@v1.2 beta:x");
    let twice = sanitize_identifier(&once);
    assert_eq!(once, twice);
}

#[test]
fn empty_credential_everywhere_is_refused() {
    assert!(parsed_args(String::new(), None, String::from("./backup")).is_none());
}

#[test]
fn empty_environment_credential_is_refused() {
    assert!(resolve_credential(String::from("flag-token"), Some(String::new())).is_none());
}

#[test]
fn environment_credential_takes_precedence() {
    let r = resolve_credential(String::from("flag-token"), Some(String::from("env-token")));
    assert_eq!(r.unwrap(), "env-token");
}

#[test]
fn flag_credential_used_without_environment() {
    let r = parsed_args(String::from("flag-token"), None, String::from("out"));
    let args = r.unwrap();
    assert_eq!(args.token, "flag-token");
    assert_eq!(args.output, "out");
}

#[test]
fn full_then_short_page_means_two_requests() {
    let (requests, total) = replay_listing(&vec![100, 37]);
    assert_eq!(requests, 2);
    assert_eq!(total, 137);
}

#[test]
fn empty_first_page_means_one_request() {
    let (requests, total) = replay_listing(&vec![0]);
    assert_eq!(requests, 1);
    assert_eq!(total, 0);
}

#[test]
fn three_pages_until_short_one() {
    let (requests, total) = replay_listing(&vec![100, 100, 64]);
    assert_eq!(requests, 3);
    assert_eq!(total, 264);
}

#[test]
fn pager_steps_through_a_run() {
    let mut pager = Pager::new();
    assert_eq!(pager.page_to_request(), 1);
    pager.record_page(100);
    assert!(!pager.done);
    assert_eq!(pager.page_to_request(), 2);
    pager.record_page(37);
    assert!(pager.done);
    assert_eq!(pager.total, 137);
}

#[test]
fn headers_carry_the_credential() {
    let h = auth_headers("token123");
    assert_eq!(h.authorization, "Bearer token123");
    assert_eq!(h.accept, "application/vnd.github+json");
    assert_eq!(h.user_agent, "github-backup");
}

#[test]
fn replacement_scans_left_to_right() {
    assert_eq!(replace_str("aab", "ab", "b"), "ab");
    assert_eq!("aab".replace("ab", "b"), replace_str("aab", "ab", "b"));
}

#[test]
fn replacement_handles_repeats_and_absence() {
    assert_eq!(replace_str("x{r}y{r}z", "{r}", "-"), "x-y-z");
    assert_eq!(replace_str("plain", "{r}", "-"), "plain");
}

#[test]
fn characters_round_trip_through_vectors() {
    let v = chars_of("zipball/main");
    assert_eq!(v.len(), 12);
    assert_eq!(string_from_chars(&v), "zipball/main");
}

#[test]
fn halting_policy_halts_on_first_failure() {
    let mut tally = DownloadTally::new();
    assert!(!tally.record(true, &DownloadPolicy::Halt));
    assert!(tally.record(false, &DownloadPolicy::Halt));
    assert_eq!(tally.completed, 1);
    assert_eq!(tally.failed, 1);
}

#[test]
fn skipping_policy_records_and_goes_on() {
    let mut tally = DownloadTally::new();
    assert!(!tally.record(false, &DownloadPolicy::Skip));
    assert!(!tally.record(true, &DownloadPolicy::Skip));
    assert_eq!(tally.completed, 1);
    assert_eq!(tally.failed, 1);
}
