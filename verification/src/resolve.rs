//! The config resolver: which configuration file a flag combination
//! selects. No file is touched here; only the path is computed.

use vstd::prelude::*;

verus! {

/// The path that a flag combination selects. Precedence, first match wins:
/// the development flag, then the test flag, then the release flag, then an
/// explicit path; with nothing set the default file is read. An explicit
/// path is silently ignored when any of the three flags is also set.
pub open spec fn resolved_path(
    dev: bool,
    test: bool,
    release: bool,
    path: Option<Seq<char>>,
) -> Seq<char> {
    if dev {
        "dev.runner.toml"@
    } else if test {
        "test.runner.toml"@
    } else if release {
        "release.runner.toml"@
    } else {
        match path {
            Some(p) => p,
            None => "runner.toml"@,
        }
    }
}

/// Law: the selectors win in a fixed order. The development flag beats
/// every other selector, the test flag beats the release flag and the
/// path, the release flag beats the path, and the path beats the
/// default; the default is read only with nothing set at all.
pub proof fn lemma_flag_precedence(
    dev: bool,
    test: bool,
    release: bool,
    path: Option<Seq<char>>,
)
    ensures
        dev ==> resolved_path(dev, test, release, path) == "dev.runner.toml"@,
        !dev && test ==> resolved_path(dev, test, release, path) == "test.runner.toml"@,
        !dev && !test && release ==> resolved_path(dev, test, release, path)
            == "release.runner.toml"@,
        (!dev && !test && !release && path is Some) ==> resolved_path(
            dev,
            test,
            release,
            path,
        ) == path->Some_0,
        !dev && !test && !release && path is None ==> resolved_path(dev, test, release, path)
            == "runner.toml"@,
{
}

/// Computes the configuration path that the given selectors pick, exactly
/// as `resolved_path` states it.
pub fn resolve_config_path(
    dev: bool,
    test: bool,
    release: bool,
    path: Option<String>,
) -> (r: String)
    ensures
        r@ == resolved_path(dev, test, release, path.deep_view()),
{
    if dev {
        "dev.runner.toml".to_owned()
    } else if test {
        "test.runner.toml".to_owned()
    } else if release {
        "release.runner.toml".to_owned()
    } else {
        match path {
            Some(p) => p,
            None => "runner.toml".to_owned(),
        }
    }
}

} // verus!
