use rocket_static_files::failure::IoFailure;
use rocket_static_files::resolver::{
    request_text, serve_static, status, CacheDirective, Config, Error, RedirectOrFile, Status,
};
use rocket_static_files::lookup::current_fingerprint;
use rocket_static_files::{FileResponse, StaticFiles};

type Table = rocket_static_files::phf::Map<&'static str, &'static str>;

/// A table with the given entries, laid out as `phf` lays out a map.
fn table(entries: &[(&'static str, &'static str)]) -> &'static Table {
    let keys: Vec<&'static str> = entries.iter().map(|entry| entry.0).collect();
    let state = phf_generator::generate_hash(&keys);
    let ordered: Vec<(&'static str, &'static str)> =
        state.map.iter().map(|&at| entries[at]).collect();
    Box::leak(Box::new(rocket_static_files::phf::Map {
        key: state.key,
        disps: rocket_static_files::phf::Slice::Dynamic(state.disps),
        entries: rocket_static_files::phf::Slice::Dynamic(ordered),
    }))
}

fn path(components: &[&str]) -> Vec<String> {
    components.iter().map(|c| c.to_string()).collect()
}

fn site() -> StaticFiles {
    StaticFiles::new(
        Config { serve_from: path(&["/", "srv", "static"]), path_prefix: "/static".to_string() },
        table(&[
            ("style.css", "H8y4bzqH6Mg"),
            ("js/app.js", "AAAAAAAAAAA"),
            ("img/logo.png", "__________8"),
            ("data.bin", "1wB3c51Lkh4"),
            ("LICENSE", "TWFuAAAAAAA"),
            ("notes.", "-_-_AAAAAAA"),
        ]),
    )
}

fn kept(path_of: &[&str], content_type: &str) -> Result<RedirectOrFile, Error> {
    Ok(RedirectOrFile::File(FileResponse {
        path: path(path_of),
        content_type: content_type.to_string(),
        cache_control: vec![CacheDirective::MaxAge(31536000)],
    }))
}

fn not_kept(path_of: &[&str], content_type: &str) -> Result<RedirectOrFile, Error> {
    Ok(RedirectOrFile::File(FileResponse {
        path: path(path_of),
        content_type: content_type.to_string(),
        cache_control: vec![],
    }))
}

fn redirect(url: &str) -> Result<RedirectOrFile, Error> {
    Ok(RedirectOrFile::Redirect(url.to_string()))
}

#[test]
fn lookups_find_what_the_table_holds() {
    let hashes = table(&[("style.css", "H8y4bzqH6Mg"), ("js/app.js", "AAAAAAAAAAA")]);
    assert_eq!(current_fingerprint(hashes, "style.css"), Some("H8y4bzqH6Mg"));
    assert_eq!(current_fingerprint(hashes, "js/app.js"), Some("AAAAAAAAAAA"));
    assert_eq!(current_fingerprint(hashes, "style.cs"), None);
    assert_eq!(current_fingerprint(hashes, ""), None);
}

#[test]
fn lookups_in_a_large_table() {
    let names: Vec<&'static str> =
        (0..200).map(|i| &*Box::leak(format!("img/icon-{}.png", i).into_boxed_str())).collect();
    let prints: Vec<&'static str> =
        (0..200).map(|i| &*Box::leak(format!("print{:06}", i).into_boxed_str())).collect();
    let entries: Vec<(&'static str, &'static str)> =
        names.iter().copied().zip(prints.iter().copied()).collect();
    let hashes = table(&entries);
    for (name, print) in &entries {
        assert_eq!(current_fingerprint(hashes, name), Some(*print));
    }
    assert_eq!(current_fingerprint(hashes, "img/icon-200.png"), None);
    assert_eq!(current_fingerprint(hashes, "img"), None);
}

#[test]
fn lookups_in_an_empty_table_find_nothing() {
    assert_eq!(current_fingerprint(table(&[]), "style.css"), None);
}

#[test]
fn the_current_fingerprint_is_served_for_a_year() {
    let files = site();
    assert_eq!(
        serve_static(
            Some(&path(&["style.css"])),
            Some("H8y4bzqH6Mg"),
            Ok(path(&["/", "srv", "static", "style.css"])),
            &files
        ),
        kept(&["/", "srv", "static", "style.css"], "text/css")
    );
    assert_eq!(
        serve_static(
            Some(&path(&["js", "app.js"])),
            Some("AAAAAAAAAAA"),
            Ok(path(&["/", "srv", "static", "js", "app.js"])),
            &files
        ),
        kept(&["/", "srv", "static", "js", "app.js"], "text/javascript")
    );
}

#[test]
fn a_request_without_fingerprint_is_redirected() {
    assert_eq!(
        serve_static(
            Some(&path(&["style.css"])),
            None,
            Ok(path(&["/", "srv", "static", "style.css"])),
            &site()
        ),
        redirect("/static/style.css?v=H8y4bzqH6Mg")
    );
}

#[test]
fn a_stale_fingerprint_is_redirected() {
    assert_eq!(
        serve_static(
            Some(&path(&["style.css"])),
            Some("stale123"),
            Ok(path(&["/", "srv", "static", "style.css"])),
            &site()
        ),
        redirect("/static/style.css?v=H8y4bzqH6Mg")
    );
    assert_eq!(
        serve_static(
            Some(&path(&["js", "app.js"])),
            Some(""),
            Ok(path(&["/", "srv", "static", "js", "app.js"])),
            &site()
        ),
        redirect("/static/js/app.js?v=AAAAAAAAAAA")
    );
}

#[test]
fn the_fingerprint_of_another_file_is_stale() {
    assert_eq!(
        serve_static(
            Some(&path(&["style.css"])),
            Some("AAAAAAAAAAA"),
            Ok(path(&["/", "srv", "static", "style.css"])),
            &site()
        ),
        redirect("/static/style.css?v=H8y4bzqH6Mg")
    );
}

#[test]
fn a_path_outside_the_directory_is_not_found() {
    let files = site();
    let outside = serve_static(
        Some(&path(&["..", "..", "etc", "passwd"])),
        None,
        Ok(path(&["/", "etc", "passwd"])),
        &files,
    );
    assert_eq!(outside, Err(Error::OutOfBounds));
    let missing = serve_static(Some(&path(&["missing.css"])), None, Err(IoFailure::NotFound), &files);
    assert_eq!(missing, Err(Error::Io { failure: IoFailure::NotFound }));
    assert_eq!(
        outside.unwrap_err().respond_to(),
        missing.unwrap_err().respond_to()
    );
    assert_eq!(Error::OutOfBounds.respond_to(), Status::NotFound);
}

#[test]
fn a_secret_next_to_the_directory_is_not_found() {
    let files = site();
    for claimed in [None, Some("H8y4bzqH6Mg"), Some("stale123")] {
        let response =
            serve_static(Some(&path(&["..", "secret.txt"])), claimed, Ok(path(&["/", "srv", "secret.txt"])), &files);
        assert_eq!(response, Err(Error::OutOfBounds));
        assert_eq!(response.unwrap_err().respond_to(), Status::NotFound);
    }
}

#[test]
fn a_sibling_with_a_longer_name_is_outside() {
    assert_eq!(
        serve_static(
            Some(&path(&["..", "static-old", "style.css"])),
            None,
            Ok(path(&["/", "srv", "static-old", "style.css"])),
            &site()
        ),
        Err(Error::OutOfBounds)
    );
}

#[test]
fn a_tracked_name_outside_the_directory_is_still_not_found() {
    assert_eq!(
        serve_static(
            Some(&path(&["style.css"])),
            Some("H8y4bzqH6Mg"),
            Ok(path(&["/", "tmp", "style.css"])),
            &site()
        ),
        Err(Error::OutOfBounds)
    );
}

#[test]
fn an_untracked_file_is_served_without_caching() {
    let files = site();
    for claimed in [None, Some("H8y4bzqH6Mg"), Some("anything")] {
        assert_eq!(
            serve_static(
                Some(&path(&["robots.txt"])),
                claimed,
                Ok(path(&["/", "srv", "static", "robots.txt"])),
                &files
            ),
            not_kept(&["/", "srv", "static", "robots.txt"], "text/plain")
        );
    }
}

#[test]
fn the_directory_itself_is_inside() {
    assert_eq!(
        serve_static(Some(&path(&[])), None, Ok(path(&["/", "srv", "static"])), &site()),
        not_kept(&["/", "srv", "static"], "application/octet-stream")
    );
}

#[test]
fn a_path_that_is_not_text_is_refused() {
    let files = site();
    let response = serve_static(None, None, Ok(path(&["/", "srv", "static", "x"])), &files);
    assert_eq!(response, Err(Error::Utf8));
    assert_eq!(response.unwrap_err().respond_to(), Status::NotFound);
    assert_eq!(
        serve_static(None, Some("v"), Err(IoFailure::Other), &files),
        Err(Error::Utf8)
    );
}

#[test]
fn an_unexpected_io_error_is_a_server_error() {
    let response = serve_static(Some(&path(&["style.css"])), None, Err(IoFailure::Other), &site());
    assert_eq!(response, Err(Error::Io { failure: IoFailure::Other }));
    assert_eq!(response.unwrap_err().respond_to(), Status::InternalServerError);
}

#[test]
fn a_missing_file_is_not_found() {
    let response =
        serve_static(Some(&path(&["style.css"])), Some("H8y4bzqH6Mg"), Err(IoFailure::NotFound), &site());
    assert_eq!(response, Err(Error::Io { failure: IoFailure::NotFound }));
    assert_eq!(response.unwrap_err().respond_to(), Status::NotFound);
}

#[test]
fn content_types_follow_the_extension() {
    assert_eq!(FileResponse::new(path(&["a", "logo.png"]), true).content_type, "image/png");
    assert_eq!(FileResponse::new(path(&["a", "page.HTML"]), true).content_type, "text/html");
    assert_eq!(FileResponse::new(path(&["archive.tar.gz"]), false).content_type, "application/gzip");
}

#[test]
fn unknown_extensions_are_binary() {
    for name in ["data.unknownext", "LICENSE", ".htaccess", "notes.", ".."] {
        assert_eq!(
            FileResponse::new(path(&["srv", name]), false).content_type,
            "application/octet-stream"
        );
    }
    assert_eq!(FileResponse::new(path(&[]), false).content_type, "application/octet-stream");
}

#[test]
fn only_the_last_component_gives_the_extension() {
    assert_eq!(
        FileResponse::new(path(&["site.css", "README"]), false).content_type,
        "application/octet-stream"
    );
}

#[test]
fn cache_control_is_one_year_or_nothing() {
    assert_eq!(FileResponse::cache_control(true), vec![CacheDirective::MaxAge(31536000)]);
    assert_eq!(FileResponse::cache_control(false), vec![]);
    assert_eq!(31536000, 365 * 24 * 60 * 60);
}

#[test]
fn file_response_keeps_the_path() {
    let response = FileResponse::new(path(&["/", "srv", "static", "style.css"]), true);
    assert_eq!(response.path, path(&["/", "srv", "static", "style.css"]));
    assert_eq!(response.cache_control, vec![CacheDirective::MaxAge(31536000)]);
}

#[test]
fn to_appends_the_current_fingerprint() {
    let files = site();
    assert_eq!(files.to("/style.css"), "/static/style.css?v=H8y4bzqH6Mg");
    assert_eq!(files.to("/js/app.js"), "/static/js/app.js?v=AAAAAAAAAAA");
}

#[test]
fn to_leaves_untracked_paths_without_query() {
    let files = site();
    assert_eq!(files.to("/robots.txt"), "/static/robots.txt");
    assert_eq!(files.to("style.css"), "/staticstyle.css");
    assert_eq!(files.to(""), "/static");
}

#[test]
fn to_looks_up_the_path_without_its_first_character() {
    let files = site();
    assert_eq!(files.to("xstyle.css"), "/staticxstyle.css?v=H8y4bzqH6Mg");
    assert_eq!(files.to("\u{e9}style.css"), "/static\u{e9}style.css?v=H8y4bzqH6Mg");
}

#[test]
fn the_redirect_goes_where_to_points() {
    let files = site();
    for name in ["style.css", "js/app.js", "img/logo.png"] {
        let target = path(&["/", "srv", "static", name]);
        assert_eq!(
            serve_static(Some(&path(&name.split('/').collect::<Vec<_>>())), None, Ok(target), &files),
            redirect(&files.to(&format!("/{}", name)))
        );
    }
}

#[test]
fn following_the_redirect_serves_the_file() {
    let files = site();
    let target = || Ok(path(&["/", "srv", "static", "img", "logo.png"]));
    let url = match serve_static(Some(&path(&["img", "logo.png"])), Some("old"), target(), &files) {
        Ok(RedirectOrFile::Redirect(url)) => url,
        other => panic!("expected a redirect, got {:?}", other),
    };
    let claimed = url.split("?v=").nth(1);
    assert_eq!(claimed, Some("__________8"));
    assert_eq!(
        serve_static(Some(&path(&["img", "logo.png"])), claimed, target(), &files),
        kept(&["/", "srv", "static", "img", "logo.png"], "image/png")
    );
}

#[test]
fn with_an_empty_table_every_file_is_untracked() {
    let files = StaticFiles::new(
        Config { serve_from: path(&["/", "srv"]), path_prefix: String::new() },
        table(&[]),
    );
    assert_eq!(
        serve_static(Some(&path(&["style.css"])), Some("H8y4bzqH6Mg"), Ok(path(&["/", "srv", "style.css"])), &files),
        not_kept(&["/", "srv", "style.css"], "text/css")
    );
    assert_eq!(files.to("/style.css"), "/style.css");
}

#[test]
fn the_stylesheet_with_its_fingerprint_is_a_200_for_a_year() {
    let response = serve_static(
        Some(&path(&["style.css"])),
        Some("H8y4bzqH6Mg"),
        Ok(path(&["/", "srv", "static", "style.css"])),
        &site(),
    );
    assert_eq!(status(&response).code(), 200);
    assert_eq!(response, kept(&["/", "srv", "static", "style.css"], "text/css"));
}

#[test]
fn the_stylesheet_without_fingerprint_is_a_302() {
    let response = serve_static(
        Some(&path(&["style.css"])),
        None,
        Ok(path(&["/", "srv", "static", "style.css"])),
        &site(),
    );
    assert_eq!(status(&response).code(), 302);
    assert_eq!(response, redirect("/static/style.css?v=H8y4bzqH6Mg"));
}

#[test]
fn the_stylesheet_with_a_stale_fingerprint_is_a_302() {
    let response = serve_static(
        Some(&path(&["style.css"])),
        Some("stale123"),
        Ok(path(&["/", "srv", "static", "style.css"])),
        &site(),
    );
    assert_eq!(status(&response).code(), 302);
    assert_eq!(response, redirect("/static/style.css?v=H8y4bzqH6Mg"));
}

#[test]
fn the_secret_is_a_404_whether_it_exists_or_not() {
    let files = site();
    let existing =
        serve_static(Some(&path(&["..", "secret.txt"])), None, Ok(path(&["/", "srv", "secret.txt"])), &files);
    let absent = serve_static(Some(&path(&["..", "secret.txt"])), None, Err(IoFailure::NotFound), &files);
    assert_eq!(status(&existing).code(), 404);
    assert_eq!(status(&absent).code(), 404);
    assert_eq!(status(&existing), status(&absent));
}

#[test]
fn statuses_have_their_numbers() {
    assert_eq!(Status::Success.code(), 200);
    assert_eq!(Status::Found.code(), 302);
    assert_eq!(Status::NotFound.code(), 404);
    assert_eq!(Status::InternalServerError.code(), 500);
    assert_eq!(status(&Err(Error::Utf8)), Status::NotFound);
    assert_eq!(status(&Err(Error::Io { failure: IoFailure::Other })), Status::InternalServerError);
}

fn odd_site() -> StaticFiles {
    StaticFiles::new(
        Config { serve_from: path(&["/", "srv", "static"]), path_prefix: "/static".to_string() },
        table(&[
            ("a b", "H8y4bzqH6Mg"),
            ("my dir/x y.css", "AAAAAAAAAAA"),
            ("what?.txt", "AAAAAAAAAAA"),
            ("part#1", "AAAAAAAAAAA"),
            ("100%", "AAAAAAAAAAA"),
            ("a+b&c=d", "AAAAAAAAAAA"),
            ("caf\u{e9}.css", "AAAAAAAAAAA"),
            ("odd.print", "a b/c?d"),
            ("tilde~name_1-2.x", "__________8"),
        ]),
    )
}

fn redirected(segments: &[&str], claimed: Option<&str>) -> Result<RedirectOrFile, Error> {
    let mut target = path(&["/", "srv", "static"]);
    target.extend(path(segments));
    serve_static(Some(&path(segments)), claimed, Ok(target), &odd_site())
}

#[test]
fn a_space_in_a_segment_is_encoded() {
    assert_eq!(redirected(&["a b"], None), redirect("/static/a%20b?v=H8y4bzqH6Mg"));
    assert_eq!(redirected(&["a b"], Some("stale123")), redirect("/static/a%20b?v=H8y4bzqH6Mg"));
}

#[test]
fn every_segment_is_encoded_by_itself() {
    assert_eq!(
        redirected(&["my dir", "x y.css"], None),
        redirect("/static/my%20dir/x%20y.css?v=AAAAAAAAAAA")
    );
}

#[test]
fn characters_that_end_a_path_are_encoded() {
    assert_eq!(redirected(&["what?.txt"], None), redirect("/static/what%3F.txt?v=AAAAAAAAAAA"));
    assert_eq!(redirected(&["part#1"], None), redirect("/static/part%231?v=AAAAAAAAAAA"));
    assert_eq!(redirected(&["100%"], None), redirect("/static/100%25?v=AAAAAAAAAAA"));
    assert_eq!(redirected(&["a+b&c=d"], None), redirect("/static/a%2Bb%26c%3Dd?v=AAAAAAAAAAA"));
}

#[test]
fn text_outside_ascii_is_encoded_byte_by_byte() {
    assert_eq!(redirected(&["caf\u{e9}.css"], None), redirect("/static/caf%C3%A9.css?v=AAAAAAAAAAA"));
}

#[test]
fn the_fingerprint_is_encoded_too() {
    assert_eq!(redirected(&["odd.print"], None), redirect("/static/odd.print?v=a%20b%2Fc%3Fd"));
}

#[test]
fn unreserved_characters_stay_as_they_are() {
    assert_eq!(
        redirected(&["tilde~name_1-2.x"], None),
        redirect("/static/tilde~name_1-2.x?v=__________8")
    );
    assert_eq!(
        redirected(&["tilde~name_1-2.x"], None),
        redirect(&odd_site().to("/tilde~name_1-2.x"))
    );
}

#[test]
fn the_claimed_fingerprint_is_compared_as_it_is() {
    let response = redirected(&["odd.print"], Some("a b/c?d"));
    assert_eq!(status(&response).code(), 200);
    assert_eq!(status(&redirected(&["odd.print"], Some("a%20b%2Fc%3Fd"))).code(), 302);
}

#[test]
fn an_encoded_name_is_looked_up_as_it_is() {
    assert_eq!(status(&redirected(&["a b"], Some("H8y4bzqH6Mg"))).code(), 200);
    assert_eq!(status(&redirected(&["a%20b"], Some("H8y4bzqH6Mg"))).code(), 200);
    assert_eq!(
        redirected(&["a%20b"], Some("H8y4bzqH6Mg")),
        not_kept(&["/", "srv", "static", "a%20b"], "application/octet-stream")
    );
}

#[test]
fn request_text_joins_the_segments() {
    assert_eq!(request_text(Some(&path(&["js", "app.js"]))), Ok("js/app.js".to_string()));
    assert_eq!(request_text(Some(&path(&["a b"]))), Ok("a b".to_string()));
    assert_eq!(request_text(Some(&path(&[]))), Ok(String::new()));
}

#[test]
fn request_text_refuses_what_is_not_text() {
    assert_eq!(request_text(None), Err(Error::Utf8));
}
