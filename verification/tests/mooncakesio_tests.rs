use moon_dashboard::mooncakesio::download_url;
use moon_dashboard::mooncakesio::index;
use moon_dashboard::mooncakesio::index_of_pkg;
use moon_dashboard::mooncakesio::zip_path;
use moon_dashboard::mooncakesio::MooncakesDB;

#[test]
fn latest_version_is_the_last_recorded() {
    let mut db = MooncakesDB::new();
    db.add_record("alice/pkg", "0.1.0".to_string(), &None);
    db.add_record("alice/pkg", "0.2.0".to_string(), &None);
    db.add_record("bob/tool", "1.0.0".to_string(), &None);
    assert_eq!(db.get_latest_version("alice/pkg"), Some("0.2.0".to_string()));
    assert_eq!(db.get_latest_version("bob/tool"), Some("1.0.0".to_string()));
    assert_eq!(db.get_latest_version("nobody/none"), None);
}

#[test]
fn test_fixture_records_are_left_out() {
    let mut db = MooncakesDB::new();
    let fixture = Some(vec!["mooncakes-test".to_string()]);
    db.add_record("alice/pkg", "0.1.0".to_string(), &fixture);
    assert_eq!(db.get_latest_version("alice/pkg"), None);

    let harmless = Some(vec!["cli".to_string(), "json".to_string()]);
    db.add_record("alice/pkg", "0.2.0".to_string(), &harmless);
    assert_eq!(db.get_latest_version("alice/pkg"), Some("0.2.0".to_string()));
}

#[test]
fn index_path_under_home() {
    assert_eq!(index("/home/u/.moon"), "/home/u/.moon/registry/index");
}

#[test]
fn package_index_path() {
    assert_eq!(
        index_of_pkg("/idx", "alice", "pkg"),
        "/idx/user/alice/pkg.index"
    );
    // An extension on the package name is replaced, as a path
    // `with_extension` would.
    assert_eq!(
        index_of_pkg("/idx", "alice", "pkg.tar"),
        "/idx/user/alice/pkg.index"
    );
    // A lone leading dot is not an extension separator.
    assert_eq!(
        index_of_pkg("/idx", "alice", ".hidden"),
        "/idx/user/alice/.hidden.index"
    );
}

#[test]
fn download_url_for_plain_version() {
    assert_eq!(
        download_url("moonbitlang/core", "0.5.0"),
        "https://moonbitlang-mooncakes.s3.us-west-2.amazonaws.com/user/moonbitlang/core/0.5.0.zip"
    );
}

#[test]
fn download_url_percent_encodes_the_version() {
    // '+' must come back percent-encoded: the encoder really ran.
    assert_eq!(
        download_url("alice/pkg", "1.0.0+build"),
        "https://moonbitlang-mooncakes.s3.us-west-2.amazonaws.com/user/alice/pkg/1.0.0%2Bbuild.zip"
    );
    // A space is serialized as '+' in the form-urlencoded syntax.
    assert_eq!(
        download_url("alice/pkg", "a b"),
        "https://moonbitlang-mooncakes.s3.us-west-2.amazonaws.com/user/alice/pkg/a+b.zip"
    );
}

#[test]
fn zip_path_joins_destination_and_version() {
    assert_eq!(zip_path("/tmp/work", "0.5.0"), "/tmp/work/0.5.0.zip");
}
