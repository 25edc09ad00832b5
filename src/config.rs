use vstd::prelude::*;

use crate::text::{chars_of, eq_ignore_ascii_case, same_ignoring_case, same_text, string_of};

verus! {

/// A user allowed to read a repository through the server.
#[derive(Debug, Clone, PartialEq, Eq)]
pub struct Credential {
    pub user_name: String,
    pub password: String,
}

/// A served repository: where it is cloned from, how often it is refreshed and who may read it.
#[derive(Debug, Clone, PartialEq, Eq)]
pub struct GitRepository {
    /// Name under which the repository is served, unique up to ASCII case.
    pub name: String,
    /// Location of the remote repository.
    pub url: String,
    /// User name for the remote, if it asks for one.
    pub user_name: String,
    /// Password for the remote, if it asks for one.
    pub password: String,
    /// Delay between two refreshes, in milliseconds.
    pub refresh_interval: u64,
    /// Who may read the repository; `None` lets every authenticated caller in.
    pub credentials: Option<Vec<Credential>>,
}

/// Where the server listens.
#[derive(Debug, Clone, PartialEq, Eq)]
pub struct Net {
    pub host: String,
    pub port: u16,
}

/// What happens to a secret token whose envelope does not decrypt.
#[derive(Debug, Clone, Copy, PartialEq, Eq)]
pub enum SecretPolicy {
    /// The whole read fails.
    FailClosed,
    /// The token is served as it stands.
    KeepToken,
}

/// The server's settings, fixed once loaded.
#[derive(Debug, Clone, PartialEq, Eq)]
pub struct Configuration {
    /// Name of this server instance.
    pub name: String,
    /// Key of the secrets embedded in served files.
    pub encryption_key: String,
    pub network: Net,
    pub repositories: Vec<GitRepository>,
    pub secret_policy: SecretPolicy,
}

/// The first repository whose name equals `name` up to ASCII case.
pub open spec fn find_repository(repos: Seq<GitRepository>, name: Seq<char>) -> Option<GitRepository>
    decreases repos.len(),
{
    if repos.len() == 0 {
        None
    } else if same_ignoring_case(repos[0].name@, name) {
        Some(repos[0])
    } else {
        find_repository(repos.drop_first(), name)
    }
}

/// The first credential whose user name equals `user` up to ASCII case.
pub open spec fn find_credential(creds: Seq<Credential>, user: Seq<char>) -> Option<Credential>
    decreases creds.len(),
{
    if creds.len() == 0 {
        None
    } else if same_ignoring_case(creds[0].user_name@, user) {
        Some(creds[0])
    } else {
        find_credential(creds.drop_first(), user)
    }
}

/// Whether `user` with `password` may read a repository with the access list `creds`.
pub open spec fn access_granted(creds: Option<Seq<Credential>>, user: Seq<char>, password: Seq<char>) -> bool {
    match creds {
        None => true,
        Some(cs) => match find_credential(cs, user) {
            None => false,
            Some(c) => c.password@ == password,
        },
    }
}

/// The access list of a repository as a sequence.
pub open spec fn access_list(r: GitRepository) -> Option<Seq<Credential>> {
    match r.credentials {
        None => None,
        Some(v) => Some(v@),
    }
}

/// Repository lookup does not depend on the case of ASCII letters in the name asked for.
pub proof fn lemma_lookup_ignores_case(repos: Seq<GitRepository>, a: Seq<char>, b: Seq<char>)
    requires
        same_ignoring_case(a, b),
    ensures
        find_repository(repos, a) == find_repository(repos, b),
    decreases repos.len(),
{
    if repos.len() > 0 {
        lemma_lookup_ignores_case(repos.drop_first(), a, b);
    }
}

impl Configuration {
    /// Finds the repository whose name matches `name`, ignoring ASCII case.
    pub fn repository(&self, name: &str) -> (r: Option<&GitRepository>)
        ensures
            match r {
                Some(g) => find_repository(self.repositories@, name@) == Some(*g),
                None => find_repository(self.repositories@, name@) is None,
            },
    {
        let mut i: usize = 0;
        assert(self.repositories@.skip(0) =~= self.repositories@);
        while i < self.repositories.len()
            invariant
                i <= self.repositories.len(),
                find_repository(self.repositories@, name@) == find_repository(
                    self.repositories@.skip(i as int),
                    name@,
                ),
            decreases self.repositories.len() - i,
        {
            assert(self.repositories@.skip(i as int).drop_first() =~= self.repositories@.skip(
                i + 1,
            ));
            if eq_ignore_ascii_case(self.repositories[i].name.as_str(), name) {
                return Some(&self.repositories[i]);
            }
            i = i + 1;
        }
        None
    }
}

impl GitRepository {
    /// Whether `user` with `password` may read this repository: user names match
    /// up to ASCII case, passwords exactly.
    pub fn is_granted_for(&self, user: &str, password: &str) -> (r: bool)
        ensures
            r == access_granted(access_list(*self), user@, password@),
    {
        if self.credentials.is_none() {
            return true;
        }
        let users = self.credentials.as_ref().unwrap();
        assert(access_list(*self) == Some(users@));
        let mut i: usize = 0;
        assert(users@.skip(0) =~= users@);
        while i < users.len()
            invariant
                i <= users.len(),
                access_list(*self) == Some(users@),
                find_credential(users@, user@) == find_credential(users@.skip(i as int), user@),
            decreases users.len() - i,
        {
            assert(users@.skip(i as int).drop_first() =~= users@.skip(i + 1));
            if eq_ignore_ascii_case(users[i].user_name.as_str(), user) {
                return same_text(users[i].password.as_str(), password);
            }
            i = i + 1;
        }
        false
    }
}

/// Name of the configuration file looked for in a directory.
pub open spec fn config_file_name() -> Seq<char> {
    seq!['c', 'o', 'n', 'f', 'i', 'g', 's', 'e', 'r', 'v', 'e', 'r', '.', 'y', 'm', 'l']
}

/// `name` inside the directory `dir`.
pub open spec fn path_in(dir: Seq<char>, name: Seq<char>) -> Seq<char> {
    if dir.len() == 0 || dir.last() == '/' {
        dir + name
    } else {
        dir.push('/') + name
    }
}

/// Where the configuration is looked for: the explicit path if one is given, else
/// the configuration file in the home directory if one is given, else in `cwd`.
pub open spec fn config_location_of(
    explicit: Option<Seq<char>>,
    home: Option<Seq<char>>,
    cwd: Seq<char>,
) -> Seq<char> {
    match explicit {
        Some(p) => p,
        None => match home {
            Some(h) => path_in(h, config_file_name()),
            None => path_in(cwd, config_file_name()),
        },
    }
}

/// Appends `name` to `dir` as a path.
fn push_path(dir: &str, name: &Vec<char>) -> (r: Vec<char>)
    ensures
        r@ == path_in(dir@, name@),
{
    let mut out = chars_of(dir);
    if out.len() > 0 && out[out.len() - 1] != '/' {
        out.push('/');
    }
    let mut i: usize = 0;
    let ghost base = out@;
    while i < name.len()
        invariant
            i <= name.len(),
            out@ == base + name@.take(i as int),
        decreases name.len() - i,
    {
        out.push(name[i]);
        i = i + 1;
        assert(out@ =~= base + name@.take(i as int));
    }
    assert(name@.take(i as int) =~= name@);
    out
}

/// Picks the path of the configuration file: `explicit` if given, else the
/// configuration file in `home` if given, else in `cwd`.
pub fn config_location(explicit: Option<&str>, home: Option<&str>, cwd: &str) -> (r: String)
    ensures
        r@ == config_location_of(
            match explicit {
                Some(p) => Some(p@),
                None => None,
            },
            match home {
                Some(h) => Some(h@),
                None => None,
            },
            cwd@,
        ),
{
    if let Some(p) = explicit {
        let v = chars_of(p);
        return string_of(&v);
    }
    let name = chars_of("configserver.yml");
    proof {
        reveal_strlit("configserver.yml");
    }
    assert(name@ =~= config_file_name());
    let dir = match home {
        Some(h) => h,
        None => cwd,
    };
    let v = push_path(dir, &name);
    string_of(&v)
}

} // verus!
