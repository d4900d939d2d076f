//! npm configuration: the registries and auth tokens that `.npmrc` files set.

use vstd::prelude::*;
use crate::strmap::StrMap;
use crate::text::{
    after_first, before_first, lemma_empty_literal, ends_with, find_char, first_index, lemma_first_index_bounds,
    same_text, split_lines, starts_with, trim, trim_spaces,
};

verus! {

pub type TextMap = Map<Seq<char>, Seq<char>>;

/// The key and value a line sets: the trimmed texts before and after its first `=`.
/// Empty lines, `;` and `#` comments and lines without `=` set nothing.
pub open spec fn line_setting(line: Seq<char>) -> Option<(Seq<char>, Seq<char>)> {
    let l = trim_spaces(line);
    if l.len() == 0 || l[0] == ';' || l[0] == '#' {
        None
    } else {
        match after_first(l, '=') {
            None => None,
            Some(rest) => Some((trim_spaces(before_first(l, '=')), trim_spaces(rest))),
        }
    }
}

/// The registry a key sets: `registry` the default one (key ``), `@scope:registry`
/// that of the scope (the text before the first `:`).
pub open spec fn registry_key(key: Seq<char>) -> Option<Seq<char>> {
    if key == "registry"@ {
        Some(Seq::empty())
    } else if "@"@.is_prefix_of(key) && ":registry"@.is_suffix_of(key) {
        Some(before_first(key, ':'))
    } else {
        None
    }
}

/// The URL part of a `//host/path/:_authToken` key: all before `:_authToken`.
pub open spec fn token_url(key: Seq<char>) -> Seq<char> {
    key.take(key.len() - ":_authToken"@.len())
}

/// The auth tokens a key sets: `_authToken` the default one (key ``), and
/// `//host/path/:_authToken` the ones for `https://host/path/` and `http://host/path/`
/// (a port in the host included).
pub open spec fn token_keys(key: Seq<char>) -> Seq<Seq<char>> {
    if key == "_authToken"@ {
        seq![Seq::empty()]
    } else if "//"@.is_prefix_of(key) && ":_authToken"@.is_suffix_of(key) {
        seq!["https:"@ + token_url(key), "http:"@ + token_url(key)]
    } else {
        Seq::empty()
    }
}

/// `m` with each of `keys` set to `v`.
pub open spec fn insert_all(m: TextMap, keys: Seq<Seq<char>>, v: Seq<char>) -> TextMap
    decreases keys.len(),
{
    if keys.len() == 0 {
        m
    } else {
        insert_all(m.insert(keys[0], v), keys.drop_first(), v)
    }
}

/// What one `.npmrc` line sets, on the registries and auth tokens read so far.
pub open spec fn apply_setting(st: (TextMap, TextMap), line: Seq<char>) -> (TextMap, TextMap) {
    match line_setting(line) {
        None => st,
        Some((key, value)) => (
            match registry_key(key) {
                Some(k) => st.0.insert(k, value),
                None => st.0,
            },
            insert_all(st.1, token_keys(key), value),
        ),
    }
}

pub open spec fn apply_lines(st: (TextMap, TextMap), lines: Seq<Seq<char>>) -> (TextMap, TextMap)
    decreases lines.len(),
{
    if lines.len() == 0 {
        st
    } else {
        apply_lines(apply_setting(st, lines[0]), lines.drop_first())
    }
}

/// The registries and auth tokens that one `.npmrc` text sets, line by line, a later
/// line replacing an earlier one.
pub open spec fn npmrc_settings(text: Seq<char>) -> (TextMap, TextMap) {
    apply_lines((Map::empty(), Map::empty()), split_lines(text))
}

/// The value of the last of `lines` that sets registry `k`, if one does.
pub open spec fn last_registry_setting(lines: Seq<Seq<char>>, k: Seq<char>) -> Option<Seq<char>>
    decreases lines.len(),
{
    if lines.len() == 0 {
        None
    } else {
        match last_registry_setting(lines.drop_first(), k) {
            Some(v) => Some(v),
            None => match line_setting(lines[0]) {
                Some((key, value)) => if registry_key(key) == Some(k) {
                    Some(value)
                } else {
                    None
                },
                None => None,
            },
        }
    }
}

/// The value of the last of `lines` that sets auth token `k`, if one does.
pub open spec fn last_token_setting(lines: Seq<Seq<char>>, k: Seq<char>) -> Option<Seq<char>>
    decreases lines.len(),
{
    if lines.len() == 0 {
        None
    } else {
        match last_token_setting(lines.drop_first(), k) {
            Some(v) => Some(v),
            None => match line_setting(lines[0]) {
                Some((key, value)) => if token_keys(key).contains(k) {
                    Some(value)
                } else {
                    None
                },
                None => None,
            },
        }
    }
}

proof fn lemma_insert_all(m: TextMap, keys: Seq<Seq<char>>, v: Seq<char>, k: Seq<char>)
    ensures
        insert_all(m, keys, v).contains_key(k) == (keys.contains(k) || m.contains_key(k)),
        keys.contains(k) ==> insert_all(m, keys, v)[k] == v,
        !keys.contains(k) && m.contains_key(k) ==> insert_all(m, keys, v)[k] == m[k],
    decreases keys.len(),
{
    if keys.len() > 0 {
        lemma_insert_all(m.insert(keys[0], v), keys.drop_first(), v, k);
        if keys.contains(k) && keys[0] != k {
            let i = choose|i: int| 0 <= i < keys.len() && keys[i] == k;
            assert(keys.drop_first()[i - 1] == k);
        }
        if keys.drop_first().contains(k) {
            let i = choose|i: int| 0 <= i < keys.drop_first().len() && keys.drop_first()[i] == k;
            assert(keys[i + 1] == k);
        }
    }
}

proof fn lemma_lines_last_wins(st: (TextMap, TextMap), lines: Seq<Seq<char>>, k: Seq<char>)
    ensures
        apply_lines(st, lines).0.contains_key(k) == (last_registry_setting(lines, k) is Some
            || st.0.contains_key(k)),
        last_registry_setting(lines, k) matches Some(v) ==> apply_lines(st, lines).0[k] == v,
        last_registry_setting(lines, k) is None && st.0.contains_key(k) ==> apply_lines(
            st,
            lines,
        ).0[k] == st.0[k],
        apply_lines(st, lines).1.contains_key(k) == (last_token_setting(lines, k) is Some
            || st.1.contains_key(k)),
        last_token_setting(lines, k) matches Some(v) ==> apply_lines(st, lines).1[k] == v,
        last_token_setting(lines, k) is None && st.1.contains_key(k) ==> apply_lines(
            st,
            lines,
        ).1[k] == st.1[k],
    decreases lines.len(),
{
    if lines.len() > 0 {
        let st1 = apply_setting(st, lines[0]);
        lemma_lines_last_wins(st1, lines.drop_first(), k);
        match line_setting(lines[0]) {
            Some((key, value)) => {
                lemma_insert_all(st.1, token_keys(key), value, k);
            },
            None => {},
        }
    }
}

/// In one `.npmrc` text, each registry and each auth token has the value of the last
/// line that sets it, and only what some line sets is set.
pub proof fn lemma_npmrc_last_line_wins(text: Seq<char>, k: Seq<char>)
    ensures
        npmrc_settings(text).0.contains_key(k) == last_registry_setting(split_lines(text), k) is Some,
        last_registry_setting(split_lines(text), k) matches Some(v) ==> npmrc_settings(text).0[k]
            == v,
        npmrc_settings(text).1.contains_key(k) == last_token_setting(split_lines(text), k) is Some,
        last_token_setting(split_lines(text), k) matches Some(v) ==> npmrc_settings(text).1[k] == v,
{
    lemma_lines_last_wins((Map::empty(), Map::empty()), split_lines(text), k);
}

/// The auth tokens of a file once its default token (if any) is moved to the default
/// registry in force, `registries[""]`.
pub open spec fn file_tokens(registries: TextMap, tokens: TextMap) -> TextMap {
    if tokens.contains_key(Seq::empty()) {
        tokens.insert(registries[Seq::empty()], tokens[Seq::empty()]).remove(Seq::empty())
    } else {
        tokens
    }
}

/// What one `.npmrc` file sets.
pub struct NpmrcFile {
    pub registries: StrMap,
    pub auth_tokens: StrMap,
}

/// Applies one line to the settings read so far.
fn apply_setting_line(registries: &mut StrMap, tokens: &mut StrMap, line: &str)
    ensures
        (final(registries)@, final(tokens)@) == apply_setting(
            (old(registries)@, old(tokens)@),
            line@,
        ),
{
    let l = trim(line);
    let n = l.unicode_len();
    if n == 0 {
        return ;
    }
    let c0 = l.get_char(0);
    if c0 == ';' || c0 == '#' {
        return ;
    }
    let eq = find_char(l, '=');
    proof {
        lemma_first_index_bounds(l@, '=');
    }
    if eq >= n {
        return ;
    }
    let key = trim(l.substring_char(0, eq));
    let value = trim(l.substring_char(eq + 1, n));
    assert(l@.subrange(0, eq as int) =~= before_first(l@, '='));
    assert(l@.subrange(eq + 1, n as int) =~= l@.skip(eq + 1));
    assert(line_setting(line@) == Some((key@, value@)));
    if same_text(key, "registry") {
        registries.insert(String::new(), value.to_owned());
    } else if starts_with(key, "@") && ends_with(key, ":registry") {
        let c = find_char(key, ':');
        proof {
            lemma_first_index_bounds(key@, ':');
        }
        let scope = key.substring_char(0, c);
        registries.insert(scope.to_owned(), value.to_owned());
    }
    let ghost t0 = tokens@;
    if same_text(key, "_authToken") {
        tokens.insert(String::new(), value.to_owned());
        proof {
            let ks = token_keys(key@);
            assert(ks.drop_first() =~= Seq::<Seq<char>>::empty());
            assert(insert_all(t0, ks, value@) == insert_all(t0.insert(ks[0], value@), ks.drop_first(), value@));
        }
    } else if starts_with(key, "//") && ends_with(key, ":_authToken") {
        let m = key.unicode_len();
        let sl = ":_authToken".unicode_len();
        let url = key.substring_char(0, m - sl);
        assert(url@ =~= token_url(key@));
        let mut https = "https:".to_owned();
        https.append(url);
        let mut http = "http:".to_owned();
        http.append(url);
        tokens.insert(https, value.to_owned());
        tokens.insert(http, value.to_owned());
        proof {
            let ks = token_keys(key@);
            let t1 = t0.insert(ks[0], value@);
            assert(ks.drop_first().drop_first() =~= Seq::<Seq<char>>::empty());
            assert(ks.drop_first()[0] == ks[1]);
            assert(insert_all(t1, ks.drop_first(), value@) == insert_all(t1.insert(ks[1], value@), ks.drop_first().drop_first(), value@));
            assert(insert_all(t0, ks, value@) == insert_all(t1, ks.drop_first(), value@));
        }
    } else {
        assert(token_keys(key@) =~= Seq::<Seq<char>>::empty());
    }
}

/// Reads the settings of one `.npmrc` text.
pub fn parse_npmrc(text: &str) -> (r: NpmrcFile)
    ensures
        (r.registries@, r.auth_tokens@) == npmrc_settings(text@),
{
    let mut registries = StrMap::new();
    let mut tokens = StrMap::new();
    let n = text.unicode_len();
    let mut p: usize = 0;
    let mut done = false;
    assert(text@.skip(0) =~= text@);
    while !done
        invariant
            n == text@.len(),
            p <= n,
            !done ==> npmrc_settings(text@) == apply_lines(
                (registries@, tokens@),
                split_lines(text@.skip(p as int)),
            ),
            done ==> (registries@, tokens@) == npmrc_settings(text@),
        decreases n - p + (if done {
            0int
        } else {
            1int
        }),
    {
        let rest = text.substring_char(p, n);
        assert(rest@ =~= text@.skip(p as int));
        let i = find_char(rest, '\n');
        proof {
            lemma_first_index_bounds(rest@, '\n');
        }
        let line = rest.substring_char(0, i);
        let ghost before = (registries@, tokens@);
        apply_setting_line(&mut registries, &mut tokens, line);
        let ghost lines = split_lines(rest@);
        if i < rest.unicode_len() {
            assert(lines == seq![rest@.take(i as int)] + split_lines(rest@.skip(i + 1)));
            assert(lines[0] == line@);
            assert(lines.drop_first() =~= split_lines(rest@.skip(i + 1)));
            assert(rest@.skip(i + 1) =~= text@.skip(p + i + 1));
            p = p + i + 1;
        } else {
            assert(lines == seq![rest@]);
            assert(line@ =~= rest@);
            assert(lines.drop_first() =~= Seq::<Seq<char>>::empty());
            assert(apply_lines(before, lines) == apply_lines(
                apply_setting(before, lines[0]),
                lines.drop_first(),
            ));
            done = true;
        }
    }
    NpmrcFile { registries, auth_tokens: tokens }
}

/// The settings of a file that may be absent: what it sets, or nothing.
pub open spec fn builtin_settings(f: Option<&NpmrcFile>) -> Option<(TextMap, TextMap)> {
    match f {
        Some(f) => Some((f.registries@, f.auth_tokens@)),
        None => None,
    }
}

/// npm's defaults: the public registry and no auth tokens.
pub open spec fn default_settings() -> (TextMap, TextMap) {
    (Map::empty().insert(Seq::empty(), "https://registry.npmjs.org/"@), Map::empty())
}

/// The registries and auth tokens in force after a file (where present) is applied
/// to `st`: what it sets replaces what was set, its default token going to the
/// default registry then in force.
pub open spec fn loaded(st: (TextMap, TextMap), f: Option<(TextMap, TextMap)>) -> (TextMap, TextMap) {
    match f {
        Some((regs, tokens)) => {
            let r = st.0.union_prefer_right(regs);
            (r, st.1.union_prefer_right(file_tokens(r, tokens)))
        },
        None => st,
    }
}

/// The registries (by scope, the default under the empty key) and auth tokens (by
/// registry URL) that npm is configured with.
pub struct NpmConfig {
    registries: StrMap,
    auth_tokens: StrMap,
}

impl NpmConfig {
    #[verifier::type_invariant]
    spec fn has_default_registry(self) -> bool {
        self.registries@.contains_key(Seq::empty())
    }

    pub closed spec fn registries(&self) -> TextMap {
        self.registries@
    }

    pub closed spec fn auth_tokens(&self) -> TextMap {
        self.auth_tokens@
    }

    /// There is a default registry (which every value of the type has).
    pub open spec fn wf(&self) -> bool {
        self.registries().contains_key(Seq::empty())
    }

    /// The registry for a scope: its own where one is set, else the default.
    pub open spec fn scope_registry(&self, scope: Seq<char>) -> Seq<char> {
        if self.registries().contains_key(scope) {
            self.registries()[scope]
        } else {
            self.registries()[Seq::empty()]
        }
    }

    /// The registry for a package: that of its scope for `@scope/name`, else the default.
    pub open spec fn package_registry(&self, package: Seq<char>) -> Seq<char> {
        if first_index(package, '/') < package.len() && "@"@.is_prefix_of(package) {
            self.scope_registry(before_first(package, '/'))
        } else {
            self.registries()[Seq::empty()]
        }
    }

    /// The URL of a package's document on a registry: the registry URL, a `/` where it
    /// does not end with one, and the package name.
    pub open spec fn document_url(registry: Seq<char>, package: Seq<char>) -> Seq<char> {
        if "/"@.is_suffix_of(registry) {
            registry + package
        } else {
            registry + "/"@ + package
        }
    }

    /// npm's defaults: the public registry and no auth tokens.
    pub fn new() -> (r: NpmConfig)
        ensures
            r.wf(),
            r.registries() == Map::<Seq<char>, Seq<char>>::empty().insert(
                Seq::empty(),
                "https://registry.npmjs.org/"@,
            ),
            r.auth_tokens() == Map::<Seq<char>, Seq<char>>::empty(),
    {
        let mut registries = StrMap::new();
        registries.insert(String::new(), "https://registry.npmjs.org/".to_owned());
        NpmConfig { registries, auth_tokens: StrMap::new() }
    }

    /// Applies a file read after the ones before: what it sets replaces what they set.
    /// Its default token goes to the default registry in force once it is applied (its
    /// own, or the one set before where it sets none).
    pub fn load_file(&mut self, file: &NpmrcFile)
        ensures
            final(self).wf(),
            final(self).registries() == old(self).registries().union_prefer_right(
                file.registries@,
            ),
            final(self).auth_tokens() == old(self).auth_tokens().union_prefer_right(
                file_tokens(final(self).registries(), file.auth_tokens@),
            ),
    {
        proof {
            use_type_invariant(&*self);
            lemma_empty_literal();
        }
        let mut registries = StrMap::new();
        registries.extend(&self.registries);
        registries.extend(&file.registries);
        assert(registries@ =~= old(self).registries().union_prefer_right(file.registries@));
        self.registries = registries;
        let mut tokens = StrMap::new();
        tokens.extend(&file.auth_tokens);
        assert(tokens@ =~= file.auth_tokens@);
        match file.auth_tokens.get("") {
            Some(token) => {
                let registry = self.registries.get("").unwrap();
                tokens.insert(registry.clone(), token.clone());
                tokens.remove("");
            },
            None => {},
        }
        let mut auth_tokens = StrMap::new();
        auth_tokens.extend(&self.auth_tokens);
        auth_tokens.extend(&tokens);
        assert(auth_tokens@ =~= old(self).auth_tokens().union_prefer_right(tokens@));
        self.auth_tokens = auth_tokens;
    }

    /// The configuration npm reads: its defaults, then each file present, in order:
    /// the built-in `npmrc`, the home `.npmrc`, the project's `.npmrc`, a later file
    /// replacing what an earlier one sets.
    pub fn from_files(
        builtin: Option<&NpmrcFile>,
        home: Option<&NpmrcFile>,
        project: Option<&NpmrcFile>,
    ) -> (r: NpmConfig)
        ensures
            r.wf(),
            (r.registries(), r.auth_tokens()) == loaded(
                loaded(loaded(default_settings(), builtin_settings(builtin)), builtin_settings(home)),
                builtin_settings(project),
            ),
    {
        let mut c = NpmConfig::new();
        proof {
            assert((c.registries(), c.auth_tokens()) == default_settings());
        }
        if let Some(f) = builtin {
            c.load_file(f);
        }
        if let Some(f) = home {
            c.load_file(f);
        }
        if let Some(f) = project {
            c.load_file(f);
        }
        c
    }

    /// The registry for `scope`, or the default registry where the scope has none.
    pub fn get_scope_registry(&self, scope: &str) -> (r: &String)
        ensures
            r@ == self.scope_registry(scope@),
    {
        proof {
            use_type_invariant(self);
            lemma_empty_literal();
        }
        match self.registries.get(scope) {
            Some(reg) => reg,
            None => self.registries.get("").unwrap(),
        }
    }

    /// The auth token configured for a registry URL, if any.
    pub fn get_auth_token(&self, url: &str) -> (r: Option<&String>)
        ensures
            match r {
                Some(t) => self.auth_tokens().contains_key(url@) && t@ == self.auth_tokens()[url@],
                None => !self.auth_tokens().contains_key(url@),
            },
    {
        self.auth_tokens.get(url)
    }

    /// The registry for a package: its scope's for `@scope/name`, else the default.
    pub fn get_package_registry(&self, package: &str) -> (r: &String)
        ensures
            r@ == self.package_registry(package@),
    {
        proof {
            use_type_invariant(self);
            lemma_empty_literal();
        }
        let slash = find_char(package, '/');
        if slash < package.unicode_len() && starts_with(package, "@") {
            let scope = package.substring_char(0, slash);
            return self.get_scope_registry(scope);
        }
        self.get_scope_registry("")
    }

    /// The URL to fetch a package's document from, on the package's registry.
    pub fn package_url(&self, package: &str) -> (r: String)
        ensures
            r@ == Self::document_url(self.package_registry(package@), package@),
    {
        proof {
            use_type_invariant(self);
        }
        let registry = self.get_package_registry(package);
        let mut url = registry.clone();
        if !ends_with(registry.as_str(), "/") {
            url.append("/");
        }
        url.append(package);
        url
    }

    /// The auth token to send with a package's request: the one configured for the
    /// package's registry, if any.
    pub fn package_auth_token(&self, package: &str) -> (r: Option<&String>)
        ensures
            match r {
                Some(t) => self.auth_tokens().contains_key(self.package_registry(package@))
                    && t@ == self.auth_tokens()[self.package_registry(package@)],
                None => !self.auth_tokens().contains_key(self.package_registry(package@)),
            },
    {
        proof {
            use_type_invariant(self);
        }
        let registry = self.get_package_registry(package);
        self.get_auth_token(registry.as_str())
    }
}

/// After a file is loaded, a scope's registry is the one the file sets, where it sets
/// one, and the one set before otherwise; the default registry stays present.
pub proof fn lemma_later_file_wins(before: NpmConfig, after: NpmConfig, file: NpmrcFile, scope: Seq<char>)
    requires
        before.wf(),
        after.registries() == before.registries().union_prefer_right(file.registries@),
    ensures
        after.wf(),
        file.registries@.contains_key(scope) ==> after.scope_registry(scope) == file.registries@[scope],
        !file.registries@.contains_key(scope) && before.registries().contains_key(scope)
            ==> after.scope_registry(scope) == before.scope_registry(scope),
{
}

/// Loading one `.npmrc` text that sets no bare `_authToken`: each registry and each auth
/// token that a line of it sets takes the value of the last such line, and every other
/// registry and auth token keeps the value it had before.
pub proof fn lemma_load_last_line_wins(
    before: NpmConfig,
    after: NpmConfig,
    text: Seq<char>,
    k: Seq<char>,
)
    requires
        before.wf(),
        !npmrc_settings(text).1.contains_key(Seq::empty()),
        after.registries() == before.registries().union_prefer_right(npmrc_settings(text).0),
        after.auth_tokens() == before.auth_tokens().union_prefer_right(
            file_tokens(after.registries(), npmrc_settings(text).1),
        ),
    ensures
        after.wf(),
        last_registry_setting(split_lines(text), k) matches Some(v) ==> after.scope_registry(k)
            == v,
        last_registry_setting(split_lines(text), k) is None ==> after.registries().contains_key(k)
            == before.registries().contains_key(k),
        last_registry_setting(split_lines(text), k) is None && before.registries().contains_key(k)
            ==> after.registries()[k] == before.registries()[k],
        last_token_setting(split_lines(text), k) matches Some(v) ==> after.auth_tokens().contains_key(k)
            && after.auth_tokens()[k] == v,
        last_token_setting(split_lines(text), k) is None ==> after.auth_tokens().contains_key(k)
            == before.auth_tokens().contains_key(k),
        last_token_setting(split_lines(text), k) is None && before.auth_tokens().contains_key(k)
            ==> after.auth_tokens()[k] == before.auth_tokens()[k],
{
    lemma_npmrc_last_line_wins(text, k);
}

/// The value a key has after the files are applied in order, where one of them sets it:
/// the last file's that sets it.
pub open spec fn last_file_value(files: Seq<Option<TextMap>>, k: Seq<char>) -> Option<Seq<char>>
    decreases files.len(),
{
    if files.len() == 0 {
        None
    } else {
        if sets_key(files.last(), k) {
            Some(files.last().unwrap()[k])
        } else {
            last_file_value(files.drop_last(), k)
        }
    }
}

/// The registries a file (where present) sets.
pub open spec fn registries_of(f: Option<(TextMap, TextMap)>) -> Option<TextMap> {
    match f {
        Some(x) => Some(x.0),
        None => None,
    }
}

/// The auth tokens a file (where present) sets.
pub open spec fn tokens_of(f: Option<(TextMap, TextMap)>) -> Option<TextMap> {
    match f {
        Some(x) => Some(x.1),
        None => None,
    }
}

/// The file is absent or sets no bare `_authToken`.
pub open spec fn no_bare_token(f: Option<(TextMap, TextMap)>) -> bool {
    match f {
        Some(x) => !x.1.contains_key(Seq::empty()),
        None => true,
    }
}

/// The file is present and sets key `k`.
pub open spec fn sets_key(m: Option<TextMap>, k: Seq<char>) -> bool {
    m is Some && m.unwrap().contains_key(k)
}

proof fn lemma_loaded_key(st: (TextMap, TextMap), f: Option<(TextMap, TextMap)>, k: Seq<char>)
    ensures
        ({
            let st2 = loaded(st, f);
            &&& sets_key(registries_of(f), k) ==> st2.0.contains_key(k) && st2.0[k]
                == registries_of(f).unwrap()[k]
            &&& !sets_key(registries_of(f), k) ==> (st2.0.contains_key(k) == st.0.contains_key(k)
                && (st.0.contains_key(k) ==> st2.0[k] == st.0[k]))
            &&& no_bare_token(f) && sets_key(tokens_of(f), k) ==> st2.1.contains_key(k)
                && st2.1[k] == tokens_of(f).unwrap()[k]
            &&& no_bare_token(f) && !sets_key(tokens_of(f), k) ==> (st2.1.contains_key(k)
                == st.1.contains_key(k) && (st.1.contains_key(k) ==> st2.1[k] == st.1[k]))
        }),
{
}

/// The registries after the built-in, home and project files are applied: for each
/// scope, the project file's registry where it sets one, else the home file's, else the
/// built-in file's, else npm's default. Where no file sets a bare `_authToken`, the auth
/// tokens follow the same precedence (and there are none by default).
pub proof fn lemma_file_precedence(
    builtin: Option<(TextMap, TextMap)>,
    home: Option<(TextMap, TextMap)>,
    project: Option<(TextMap, TextMap)>,
    k: Seq<char>,
)
    ensures
        ({
            let st = loaded(loaded(loaded(default_settings(), builtin), home), project);
            match last_file_value(
                seq![registries_of(builtin), registries_of(home), registries_of(project)],
                k,
            ) {
                Some(v) => st.0.contains_key(k) && st.0[k] == v,
                None => st.0.contains_key(k) == default_settings().0.contains_key(k) && (
                st.0.contains_key(k) ==> st.0[k] == default_settings().0[k]),
            }
        }),
        ({
            let st = loaded(loaded(loaded(default_settings(), builtin), home), project);
            no_bare_token(builtin) && no_bare_token(home) && no_bare_token(project) ==> match
            last_file_value(seq![tokens_of(builtin), tokens_of(home), tokens_of(project)], k) {
                Some(v) => st.1.contains_key(k) && st.1[k] == v,
                None => !st.1.contains_key(k),
            }
        }),
{
    let s0 = default_settings();
    let s1 = loaded(s0, builtin);
    let s2 = loaded(s1, home);
    lemma_loaded_key(s0, builtin, k);
    lemma_loaded_key(s1, home, k);
    lemma_loaded_key(s2, project, k);
    let rs = seq![registries_of(builtin), registries_of(home), registries_of(project)];
    let ts = seq![tokens_of(builtin), tokens_of(home), tokens_of(project)];
    assert(rs.drop_last() =~= seq![registries_of(builtin), registries_of(home)]);
    assert(rs.drop_last().drop_last() =~= seq![registries_of(builtin)]);
    assert(rs.drop_last().drop_last().drop_last() =~= Seq::<Option<TextMap>>::empty());
    assert(ts.drop_last() =~= seq![tokens_of(builtin), tokens_of(home)]);
    assert(ts.drop_last().drop_last() =~= seq![tokens_of(builtin)]);
    assert(ts.drop_last().drop_last().drop_last() =~= Seq::<Option<TextMap>>::empty());
    reveal_with_fuel(last_file_value, 4);
}

} // verus!
