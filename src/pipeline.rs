use vstd::prelude::*;
use vstd::utf8::{decode_utf8, valid_utf8};

use crate::config::{access_granted, access_list, find_repository, Configuration, GitRepository};
use crate::secret::{encrypt_base64_string, encrypted};
use crate::tokens::{
    decryptions, keeps_tokens, lemma_plain_text_unchanged, render, resolve_secrets, secret_payloads,
    without_braces,
};
use crate::text::{
    chars_of, join_chars, join_on, lemma_split_nonempty, split_chars, split_on, string_from_utf8,
    string_of, views,
};

verus! {

/// What base64 decoding with the standard alphabet makes of `s`, if it accepts `s`.
pub uninterp spec fn base64_decoded(s: Seq<char>) -> Option<Seq<u8>>;

/// Relies on base64's `decode` with the standard alphabet: the bytes depend on the text alone.
#[verifier::external_body]
fn decode_base64(s: &str) -> (r: Option<Vec<u8>>)
    ensures
        match r {
            Some(b) => base64_decoded(s@) == Some(b@),
            None => base64_decoded(s@) is None,
        },
{
    base64::decode(s).ok()
}

/// The outcome of reading the credentials of a request.
#[derive(Debug, Clone, PartialEq, Eq)]
pub enum AuthenticationState {
    Unauthorized,
    Authorized { login: String, password: String },
}

/// The repository and the file path that a request path names.
#[derive(Debug, Clone, PartialEq, Eq)]
pub enum Query {
    Invalid,
    Success { repository: String, path: String },
}

/// The scheme word that opens a Basic `Authorization` header, with its space.
pub open spec fn basic_scheme() -> Seq<char> {
    seq!['B', 'a', 's', 'i', 'c', ' ']
}

/// Login and password of a `login:password` text: the pieces before the first and
/// the second colon.
pub open spec fn credentials_of(text: Seq<char>) -> Option<(Seq<char>, Seq<char>)> {
    let parts = split_on(text, ':');
    if parts.len() >= 2 {
        Some((parts[0], parts[1]))
    } else {
        None
    }
}

/// Login and password carried by decoded Basic credentials.
pub open spec fn credentials_of_bytes(bytes: Seq<u8>) -> Option<(Seq<char>, Seq<char>)> {
    if valid_utf8(bytes) {
        credentials_of(decode_utf8(bytes))
    } else {
        None
    }
}

/// Login and password carried by an `Authorization` header, if it is a well formed Basic one.
pub open spec fn credentials_of_header(header: Option<Seq<char>>) -> Option<(Seq<char>, Seq<char>)> {
    match header {
        None => None,
        Some(h) => if h.len() >= 6 && h.take(6) == basic_scheme() {
            match base64_decoded(h.skip(6)) {
                None => None,
                Some(b) => credentials_of_bytes(b),
            }
        } else {
            None
        },
    }
}

impl AuthenticationState {
    pub open spec fn credentials(self) -> Option<(Seq<char>, Seq<char>)> {
        match self {
            AuthenticationState::Unauthorized => None,
            AuthenticationState::Authorized { login, password } => Some((login@, password@)),
        }
    }
}

impl Query {
    pub open spec fn parts(self) -> Option<(Seq<char>, Seq<char>)> {
        match self {
            Query::Invalid => None,
            Query::Success { repository, path } => Some((repository@, path@)),
        }
    }
}

/// Repository and file path of a request path: the pieces after the first `/`
/// and after the second one. A path without `/` names nothing.
pub open spec fn query_of(path: Seq<char>) -> Option<(Seq<char>, Seq<char>)> {
    let parts = split_on(path, '/');
    if parts.len() < 2 {
        None
    } else {
        Some((parts[1], join_on(parts.skip(2), '/')))
    }
}

/// A path component that names an entry inside its directory.
pub open spec fn is_plain_component(c: Seq<char>) -> bool {
    &&& c.len() > 0
    &&& c != seq!['.']
    &&& c != seq!['.', '.']
    &&& !c.contains('/')
}

/// The components of a relative path once `.` and empty ones are dropped and each
/// `..` has removed the component before it; `None` where a `..` would leave the
/// directory the path starts from.
pub open spec fn normalized(segs: Seq<Seq<char>>) -> Option<Seq<Seq<char>>>
    decreases segs.len(),
{
    if segs.len() == 0 {
        Some(Seq::empty())
    } else {
        match normalized(segs.drop_last()) {
            None => None,
            Some(st) => {
                let c = segs.last();
                if c.len() == 0 || c == seq!['.'] {
                    Some(st)
                } else if c == seq!['.', '.'] {
                    if st.len() == 0 {
                        None
                    } else {
                        Some(st.drop_last())
                    }
                } else {
                    Some(st.push(c))
                }
            },
        }
    }
}

/// A path that normalizes stays inside the directory it starts from: each of its
/// components names an entry of the directory before it.
pub proof fn lemma_normalized_contained(segs: Seq<Seq<char>>)
    requires
        forall|i: int| 0 <= i < segs.len() ==> !(#[trigger] segs[i]).contains('/'),
    ensures
        normalized(segs) matches Some(st) ==> forall|k: int|
            0 <= k < st.len() ==> is_plain_component(#[trigger] st[k]),
    decreases segs.len(),
{
    if segs.len() > 0 {
        let init = segs.drop_last();
        assert forall|i: int| 0 <= i < init.len() implies !(#[trigger] init[i]).contains('/') by {
            assert(init[i] == segs[i]);
        }
        lemma_normalized_contained(init);
        if let Some(st) = normalized(init) {
            let c = segs.last();
            if !(c.len() == 0 || c == seq!['.']) && c != seq!['.', '.'] {
                assert(!segs[segs.len() - 1].contains('/'));
                assert forall|k: int| 0 <= k < st.push(c).len() implies is_plain_component(
                    #[trigger] st.push(c)[k],
                ) by {
                    if k < st.len() {
                        assert(st.push(c)[k] == st[k]);
                    }
                }
            }
        }
    }
}

/// Once a prefix of a path leaves its starting directory, the whole path does.
pub proof fn lemma_normalized_prefix(segs: Seq<Seq<char>>, i: int)
    requires
        0 <= i <= segs.len(),
        normalized(segs.take(i)) is None,
    ensures
        normalized(segs) is None,
    decreases segs.len() - i,
{
    if i < segs.len() {
        assert(segs.take(i + 1).drop_last() =~= segs.take(i));
        lemma_normalized_prefix(segs, i + 1);
    } else {
        assert(segs.take(i) =~= segs);
    }
}

/// Reads login and password out of decoded Basic credentials `login:password`.
pub fn parse_credentials(bytes: Vec<u8>) -> (r: AuthenticationState)
    ensures
        r.credentials() == credentials_of_bytes(bytes@),
{
    let text = match string_from_utf8(bytes) {
        Some(t) => t,
        None => return AuthenticationState::Unauthorized,
    };
    let v = chars_of(text.as_str());
    let parts = split_chars(&v, ':');
    if parts.len() < 2 {
        return AuthenticationState::Unauthorized;
    }
    let login = string_of(&parts[0]);
    let password = string_of(&parts[1]);
    assert(views(parts@)[0] == parts@[0]@ && views(parts@)[1] == parts@[1]@);
    AuthenticationState::Authorized { login, password }
}

/// Reads the credentials of a request out of its `Authorization` header, which
/// must use the Basic scheme.
pub fn is_request_authorized(authorization: Option<&str>) -> (r: AuthenticationState)
    ensures
        r.credentials() == credentials_of_header(
            match authorization {
                Some(h) => Some(h@),
                None => None,
            },
        ),
{
    let header = match authorization {
        Some(h) => h,
        None => return AuthenticationState::Unauthorized,
    };
    let v = chars_of(header);
    if v.len() < 6 || v[0] != 'B' || v[1] != 'a' || v[2] != 's' || v[3] != 'i' || v[4] != 'c'
        || v[5] != ' ' {
        proof {
            if v@.len() >= 6 {
                let t = v@.take(6);
                assert(t[0] == v@[0] && t[1] == v@[1] && t[2] == v@[2] && t[3] == v@[3] && t[4]
                    == v@[4] && t[5] == v@[5]);
            }
        }
        return AuthenticationState::Unauthorized;
    }
    assert(v@.take(6) =~= basic_scheme());
    let mut payload: Vec<char> = Vec::new();
    let mut i: usize = 6;
    while i < v.len()
        invariant
            6 <= i <= v.len(),
            payload@ == v@.subrange(6, i as int),
        decreases v.len() - i,
    {
        payload.push(v[i]);
        i = i + 1;
        assert(payload@ =~= v@.subrange(6, i as int));
    }
    assert(payload@ =~= v@.skip(6));
    let encoded = string_of(&payload);
    match decode_base64(encoded.as_str()) {
        Some(bytes) => parse_credentials(bytes),
        None => AuthenticationState::Unauthorized,
    }
}

/// Splits a request path into the repository it names and the path of the file
/// inside it.
pub fn parse_query(request_path: &str) -> (r: Query)
    ensures
        r.parts() == query_of(request_path@),
{
    let v = chars_of(request_path);
    let parts = split_chars(&v, '/');
    if parts.len() < 2 {
        return Query::Invalid;
    }
    let repository = string_of(&parts[1]);
    let rest = join_chars(&parts, 2, '/');
    let path = string_of(&rest);
    assert(views(parts@)[1] == parts@[1]@);
    Query::Success { repository, path }
}

/// Whether `c` is the component `.`.
fn is_dot(c: &Vec<char>) -> (r: bool)
    ensures
        r == (c@ == seq!['.']),
{
    if c.len() == 1 && c[0] == '.' {
        assert(c@ =~= seq!['.']);
        true
    } else {
        false
    }
}

/// Whether `c` is the component `..`.
fn is_dot_dot(c: &Vec<char>) -> (r: bool)
    ensures
        r == (c@ == seq!['.', '.']),
{
    if c.len() == 2 && c[0] == '.' && c[1] == '.' {
        assert(c@ =~= seq!['.', '.']);
        true
    } else {
        false
    }
}

/// Normalizes the components of a relative path, refusing one that leaves the
/// directory it starts from.
pub fn normalize_components(segs: &Vec<Vec<char>>) -> (r: Option<Vec<Vec<char>>>)
    ensures
        match r {
            Some(st) => normalized(views(segs@)) == Some(views(st@)),
            None => normalized(views(segs@)) is None,
        },
{
    let ghost all = views(segs@);
    let mut stack: Vec<Vec<char>> = Vec::new();
    let mut i: usize = 0;
    assert(all.take(0) =~= Seq::<Seq<char>>::empty());
    while i < segs.len()
        invariant
            i <= segs.len(),
            all == views(segs@),
            normalized(all.take(i as int)) == Some(views(stack@)),
        decreases segs.len() - i,
    {
        let ghost before = views(stack@);
        assert(all.take(i + 1).drop_last() =~= all.take(i as int));
        assert(all.take(i + 1).last() == segs@[i as int]@);
        if segs[i].len() == 0 || is_dot(&segs[i]) {
        } else if is_dot_dot(&segs[i]) {
            if stack.len() == 0 {
                proof {
                    lemma_normalized_prefix(all, i + 1);
                }
                return None;
            }
            stack.pop();
            assert(views(stack@) =~= before.drop_last());
        } else {
            let c = segs[i].clone();
            assert(c@ == segs@[i as int]@);
            stack.push(c);
            assert(views(stack@) =~= before.push(segs@[i as int]@));
        }
        i = i + 1;
    }
    assert(all.take(i as int) =~= all);
    Some(stack)
}

/// Where a request goes.
#[derive(Debug, Clone, PartialEq, Eq)]
pub enum Route {
    /// To the encryption endpoint, which asks for no credentials.
    Encrypt,
    /// Refused for want of valid credentials, or of access to the repository.
    Unauthorized,
    /// Names no repository, or no file inside one.
    NotFound,
    /// Reads `file`, a path of plain components, from the mirror of `repository`.
    Read { repository: String, file: String },
}

/// [`Route`] over texts.
pub enum Routing {
    Encrypt,
    Unauthorized,
    NotFound,
    Read(Seq<char>, Seq<char>),
}

impl Route {
    pub open spec fn routing(self) -> Routing {
        match self {
            Route::Encrypt => Routing::Encrypt,
            Route::Unauthorized => Routing::Unauthorized,
            Route::NotFound => Routing::NotFound,
            Route::Read { repository, file } => Routing::Read(repository@, file@),
        }
    }
}

/// The answer to a request.
#[derive(Debug, Clone, PartialEq, Eq)]
pub enum Outcome {
    /// The body served, secrets decrypted.
    Content(String),
    Unauthorized,
    NotFound,
    /// The body of a request was not text.
    BadRequest,
    /// A secret of the file did not decrypt and the policy fails such reads.
    InternalError,
}

/// The path prefix reserved for the encryption endpoint.
pub open spec fn encrypt_prefix() -> Seq<char> {
    seq!['/', 'e', 'n', 'c', 'r', 'y', 'p', 't']
}

/// Whether `path` starts with the prefix reserved for the encryption endpoint.
pub open spec fn is_encrypt_path(path: Seq<char>) -> bool {
    path.len() >= 8 && path.take(8) == encrypt_prefix()
}

/// Where a request for `path` with the `Authorization` header `header` goes.
pub open spec fn routing_of(config: Configuration, path: Seq<char>, header: Option<Seq<char>>) -> Routing {
    let q = query_of(path);
    if is_encrypt_path(path) {
        Routing::Encrypt
    } else {
        match credentials_of_header(header) {
            None => Routing::Unauthorized,
            Some((login, password)) => match q {
                None => Routing::NotFound,
                Some((name, rest)) => match find_repository(config.repositories@, name) {
                    None => Routing::NotFound,
                    Some(repo) => if !access_granted(access_list(repo), login, password) {
                        Routing::Unauthorized
                    } else {
                        match normalized(split_on(rest, '/')) {
                            None => Routing::NotFound,
                            Some(st) => if st.len() == 0 {
                                Routing::NotFound
                            } else {
                                Routing::Read(repo.name@, join_on(st, '/'))
                            },
                        }
                    },
                },
            },
        }
    }
}

/// What is served for a file read as `content`, or for a missing file.
pub open spec fn serving_of(config: Configuration, content: Option<Seq<char>>) -> Option<Seq<char>> {
    match content {
        None => None,
        Some(t) => render(
            t,
            decryptions(config.encryption_key@, secret_payloads(t)),
            keeps_tokens(config.secret_policy),
        ),
    }
}

/// No piece of a text cut at `sep` holds `sep`.
pub proof fn lemma_split_pieces(s: Seq<char>, sep: char)
    ensures
        forall|i: int|
            0 <= i < split_on(s, sep).len() ==> !(#[trigger] split_on(s, sep)[i]).contains(sep),
    decreases s.len(),
{
    lemma_split_nonempty(s, sep);
    if s.len() > 0 {
        let init = split_on(s.drop_last(), sep);
        lemma_split_pieces(s.drop_last(), sep);
        lemma_split_nonempty(s.drop_last(), sep);
        if s.last() != sep {
            let last = init.last().push(s.last());
            assert(!init[init.len() - 1].contains(sep));
            assert forall|k: int| 0 <= k < last.len() implies last[k] != sep by {
                if k < init.last().len() {
                    assert(last[k] == init.last()[k]);
                }
            }
            assert forall|i: int| 0 <= i < split_on(s, sep).len() implies !(#[trigger] split_on(
                s,
                sep,
            )[i]).contains(sep) by {
                if i < init.len() - 1 {
                    assert(split_on(s, sep)[i] == init[i]);
                }
            }
        } else {
            assert forall|i: int| 0 <= i < split_on(s, sep).len() implies !(#[trigger] split_on(
                s,
                sep,
            )[i]).contains(sep) by {
                if i < init.len() {
                    assert(split_on(s, sep)[i] == init[i]);
                } else {
                    assert(split_on(s, sep)[i] =~= Seq::<char>::empty());
                }
            }
        }
    }
}

/// A request that is let through reads a file inside the mirror of its repository:
/// the file path is made of plain components, none of them `..`, `.` or empty.
pub proof fn lemma_read_stays_inside(config: Configuration, path: Seq<char>, header: Option<Seq<char>>)
    ensures
        routing_of(config, path, header) matches Routing::Read(_, file) ==> (exists|
            st: Seq<Seq<char>>,
        |
            #![trigger join_on(st, '/')]
            file == join_on(st, '/') && st.len() > 0 && forall|k: int|
                0 <= k < st.len() ==> is_plain_component(#[trigger] st[k])),
{
    if let Some((name, rest)) = query_of(path) {
        lemma_split_pieces(rest, '/');
        lemma_normalized_contained(split_on(rest, '/'));
    }
}

/// A request with valid credentials that names a repository that is not configured
/// is not found, whatever file it asks for.
pub proof fn lemma_unknown_repository_not_found(
    config: Configuration,
    path: Seq<char>,
    header: Option<Seq<char>>,
)
    requires
        credentials_of_header(header) is Some,
        !is_encrypt_path(path),
        query_of(path) matches Some((name, _)) && find_repository(
            config.repositories@,
            name,
        ) is None,
    ensures
        routing_of(config, path, header) is NotFound,
{
}

/// A request whose Basic credentials the named repository admits, for a file path
/// that stays inside the repository, reads that file from the repository's mirror;
/// a file without secrets is then served exactly as read.
pub proof fn lemma_granted_request_served(
    config: Configuration,
    path: Seq<char>,
    header: Option<Seq<char>>,
    login: Seq<char>,
    password: Seq<char>,
    name: Seq<char>,
    file: Seq<char>,
    repo: GitRepository,
    st: Seq<Seq<char>>,
    content: Seq<char>,
)
    requires
        !is_encrypt_path(path),
        credentials_of_header(header) == Some((login, password)),
        query_of(path) == Some((name, file)),
        find_repository(config.repositories@, name) == Some(repo),
        access_granted(access_list(repo), login, password),
        normalized(split_on(file, '/')) == Some(st),
        st.len() > 0,
        without_braces(content),
    ensures
        routing_of(config, path, header) == Routing::Read(repo.name@, join_on(st, '/')),
        serving_of(config, Some(content)) == Some(content),
{
    lemma_plain_text_unchanged(
        config.encryption_key@,
        content,
        keeps_tokens(config.secret_policy),
    );
}

/// The server's handling of requests: routing, access control and the serving of
/// files read from the mirrors under `repository_path`.
pub struct ConfigServer {
    pub configuration: Configuration,
    pub repository_path: String,
}

impl ConfigServer {
    pub fn new(config: Configuration, root: String) -> (r: Self)
        ensures
            r.configuration == config,
            r.repository_path == root,
    {
        ConfigServer { configuration: config, repository_path: root }
    }

    /// Decides where a request for `path` goes, given its `Authorization` header.
    pub fn route(&self, path: &str, authorization: Option<&str>) -> (r: Route)
        ensures
            r.routing() == routing_of(
                self.configuration,
                path@,
                match authorization {
                    Some(h) => Some(h@),
                    None => None,
                },
            ),
    {
        let v = chars_of(path);
        if v.len() >= 8 && v[0] == '/' && v[1] == 'e' && v[2] == 'n' && v[3] == 'c' && v[4] == 'r'
            && v[5] == 'y' && v[6] == 'p' && v[7] == 't' {
            assert(v@.take(8) =~= encrypt_prefix());
            return Route::Encrypt;
        }
        proof {
            if v@.len() >= 8 {
                let t = v@.take(8);
                assert(t[0] == v@[0] && t[1] == v@[1] && t[2] == v@[2] && t[3] == v@[3] && t[4]
                    == v@[4] && t[5] == v@[5] && t[6] == v@[6] && t[7] == v@[7]);
            }
        }
        let q = parse_query(path);
        let (login, password) = match is_request_authorized(authorization) {
            AuthenticationState::Unauthorized => return Route::Unauthorized,
            AuthenticationState::Authorized { login, password } => (login, password),
        };
        let (repository, file) = match q {
            Query::Invalid => return Route::NotFound,
            Query::Success { repository, path } => (repository, path),
        };
        let repo = match self.configuration.repository(repository.as_str()) {
            Some(c) => c,
            None => return Route::NotFound,
        };
        if !repo.is_granted_for(login.as_str(), password.as_str()) {
            return Route::Unauthorized;
        }
        let fv = chars_of(file.as_str());
        let segs = split_chars(&fv, '/');
        let st = match normalize_components(&segs) {
            Some(st) => st,
            None => return Route::NotFound,
        };
        if st.len() == 0 {
            return Route::NotFound;
        }
        let joined = join_chars(&st, 0, '/');
        assert(views(st@).skip(0) =~= views(st@));
        Route::Read { repository: repo.name.clone(), file: string_of(&joined) }
    }

    /// The answer to a read whose file held `content`, or was missing (`None`).
    pub fn serve(&self, content: Option<String>) -> (r: Outcome)
        ensures
            match content {
                None => r is NotFound,
                Some(t) => match serving_of(self.configuration, Some(t@)) {
                    Some(body) => r matches Outcome::Content(b) && b@ == body,
                    None => r is InternalError,
                },
            },
    {
        let text = match content {
            Some(t) => t,
            None => return Outcome::NotFound,
        };
        match resolve_secrets(
            text.as_str(),
            self.configuration.encryption_key.as_str(),
            self.configuration.secret_policy,
        ) {
            Ok(body) => Outcome::Content(body),
            Err(_) => Outcome::InternalError,
        }
    }
}

/// Encrypts the body of a request to the encryption endpoint under the configured key.
pub fn encrypt_body_content(body: Vec<u8>, configuration: &Configuration) -> (r: Outcome)
    ensures
        valid_utf8(body@) ==> (r matches Outcome::Content(e) && e@ == encrypted(
            configuration.encryption_key@,
            decode_utf8(body@),
        )),
        !valid_utf8(body@) ==> r is BadRequest,
{
    match string_from_utf8(body) {
        Some(text) => Outcome::Content(
            encrypt_base64_string(configuration.encryption_key.as_str(), text.as_str()),
        ),
        None => Outcome::BadRequest,
    }
}

impl Outcome {
    /// The HTTP status code of the answer.
    pub fn status(&self) -> (r: u16)
        ensures
            r == match self {
                Outcome::Content(_) => 200u16,
                Outcome::BadRequest => 400u16,
                Outcome::Unauthorized => 401u16,
                Outcome::NotFound => 404u16,
                Outcome::InternalError => 500u16,
            },
    {
        match self {
            Outcome::Content(_) => 200,
            Outcome::BadRequest => 400,
            Outcome::Unauthorized => 401,
            Outcome::NotFound => 404,
            Outcome::InternalError => 500,
        }
    }
}

} // verus!
