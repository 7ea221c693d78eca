//! Adapter metadata, the built-in adapter lists, and the selection of the
//! active adapters from an override expression.

use std::rc::Rc;
use vstd::prelude::*;
use vstd::string::StringExecFns;
use vstd::string::StrSliceExecFns;
use crate::matching::FastMatcher;
use crate::matching::SlowMatcher;

verus! {

/// What is known of an adapter without running it.
pub struct AdapterMeta {
    /// Unique short name of this adapter (a-z0-9 only).
    pub name: String,
    /// Version of the output format; part of the key of cached output, so it
    /// changes whenever the output changes.
    pub version: i32,
    pub description: String,
    /// Rules usable without content type detection; any one of them suffices.
    pub fast_matchers: Vec<FastMatcher>,
    /// Rules for when the content type is detected; any one of them suffices.
    /// Where present they replace the fast rules entirely.
    pub slow_matchers: Option<Vec<SlowMatcher>>,
}

impl AdapterMeta {
    /// The rules to test a file against: the slow rules where they are asked
    /// for and present, else every fast rule wrapped as a slow one.
    pub open spec fn matchers(&self, slow: bool) -> Seq<SlowMatcher> {
        if slow && self.slow_matchers is Some {
            self.slow_matchers->0@
        } else {
            self.fast_matchers@.map_values(|f: FastMatcher| SlowMatcher::Fast(f))
        }
    }

    pub fn get_matchers(&self, slow: bool) -> (r: Vec<SlowMatcher>)
        ensures
            r@ == self.matchers(slow),
            !slow || self.slow_matchers is None ==> r@.len() == self.fast_matchers@.len(),
            slow && self.slow_matchers is Some ==> r@ == self.slow_matchers->0@,
    {
        let mut out: Vec<SlowMatcher> = Vec::new();
        if slow {
            if let Some(sm) = &self.slow_matchers {
                let mut i: usize = 0;
                while i < sm.len()
                    invariant
                        i <= sm@.len(),
                        out@ == sm@.subrange(0, i as int),
                    decreases sm@.len() - i,
                {
                    out.push(sm[i].clone());
                    assert(out@ =~= sm@.subrange(0, i + 1));
                    i += 1;
                }
                assert(out@ =~= sm@);
                return out;
            }
        }
        let mut i: usize = 0;
        while i < self.fast_matchers.len()
            invariant
                i <= self.fast_matchers@.len(),
                out@ == self.fast_matchers@.subrange(0, i as int).map_values(
                    |f: FastMatcher| SlowMatcher::Fast(f),
                ),
            decreases self.fast_matchers@.len() - i,
        {
            out.push(SlowMatcher::Fast(self.fast_matchers[i].clone()));
            assert(out@ =~= self.fast_matchers@.subrange(0, i + 1).map_values(
                |f: FastMatcher| SlowMatcher::Fast(f),
            ));
            i += 1;
        }
        assert(self.fast_matchers@.subrange(0, i as int) =~= self.fast_matchers@);
        out
    }
}

/// Access to an adapter's metadata.
pub trait GetMetadata {
    /// The metadata that `metadata` hands out.
    spec fn spec_metadata(&self) -> AdapterMeta;

    fn metadata(&self) -> (m: &AdapterMeta)
        ensures
            *m == self.spec_metadata(),
    ;
}

/// A conversion unit as the selection sees it: stateless, immutable, and
/// shared by reference between every list that names it.
pub struct Adapter {
    pub meta: AdapterMeta,
}

impl GetMetadata for Adapter {
    open spec fn spec_metadata(&self) -> AdapterMeta {
        self.meta
    }

    fn metadata(&self) -> (m: &AdapterMeta) {
        &self.meta
    }
}

/// Why a selection was refused.
#[derive(Debug)]
pub enum SelectError {
    /// A name to include is carried by no known adapter.
    UnknownAdapter(String),
    /// A name to remove is carried by no adapter of the working list.
    NotInList(String),
}

impl SelectError {
    /// The token that the failure is about.
    pub open spec fn token(&self) -> Seq<char> {
        match self {
            SelectError::UnknownAdapter(name) => name@,
            SelectError::NotInList(name) => name@,
        }
    }

    /// The failure in words, naming the token.
    pub fn message(&self) -> (r: String)
        ensures
            self is UnknownAdapter ==> r@ == "Unknown adapter: \""@ + self.token() + "\""@,
            self is NotInList ==> r@ == "Could not remove "@ + self.token() + ": Not in list"@,
    {
        match self {
            SelectError::UnknownAdapter(name) => String::from_str("Unknown adapter: \"").concat(
                name.as_str(),
            ).concat("\""),
            SelectError::NotInList(name) => String::from_str("Could not remove ").concat(
                name.as_str(),
            ).concat(": Not in list"),
        }
    }
}

/// What a selection comes to, over the views of the names.
pub ghost enum Selection {
    Chosen(Seq<Rc<Adapter>>),
    UnknownAdapter(Seq<char>),
    NotInList(Seq<char>),
}

pub open spec fn name_of(a: Rc<Adapter>) -> Seq<char> {
    a.meta.name@
}

/// The adapter that the name resolves to: of several with that name, the last.
pub open spec fn lookup(known: Seq<Rc<Adapter>>, name: Seq<char>) -> Option<Rc<Adapter>>
    decreases known.len(),
{
    if known.len() == 0 {
        None
    } else if name_of(known.last()) == name {
        Some(known.last())
    } else {
        lookup(known.drop_last(), name)
    }
}

/// The index of the first adapter with that name, or the list's length where
/// there is none.
pub open spec fn position(list: Seq<Rc<Adapter>>, name: Seq<char>) -> int
    decreases list.len(),
{
    if list.len() == 0 {
        0
    } else if name_of(list[0]) == name {
        0
    } else {
        1 + position(list.drop_first(), name)
    }
}

/// The working list after the names were processed from left to right, or the
/// first failure on the way.
pub open spec fn apply(
    subtractive: bool,
    known: Seq<Rc<Adapter>>,
    work: Seq<Rc<Adapter>>,
    names: Seq<Seq<char>>,
) -> Selection
    decreases names.len(),
{
    if names.len() == 0 {
        Selection::Chosen(work)
    } else if subtractive {
        let i = position(work, names[0]);
        if i == work.len() {
            Selection::NotInList(names[0])
        } else {
            apply(subtractive, known, work.remove(i), names.drop_first())
        }
    } else {
        match lookup(known, names[0]) {
            None => Selection::UnknownAdapter(names[0]),
            Some(a) => apply(subtractive, known, work.push(a), names.drop_first()),
        }
    }
}

pub open spec fn has_sign(token: Seq<char>, sign: char) -> bool {
    token.len() > 0 && token[0] == sign
}

/// The names that the tokens stand for: the first without its sign.
pub open spec fn names_of_tokens(tokens: Seq<Seq<char>>) -> Seq<Seq<char>>
    recommends
        tokens.len() > 0,
{
    if has_sign(tokens[0], '-') || has_sign(tokens[0], '+') {
        tokens.update(0, tokens[0].drop_first())
    } else {
        tokens
    }
}

/// The active adapters for an override expression, given the two default lists.
pub open spec fn selection(
    enabled: Seq<Rc<Adapter>>,
    disabled: Seq<Rc<Adapter>>,
    tokens: Seq<Seq<char>>,
) -> Selection {
    if tokens.len() == 0 {
        Selection::Chosen(enabled)
    } else {
        let subtractive = has_sign(tokens[0], '-');
        let additive = has_sign(tokens[0], '+');
        apply(
            subtractive,
            enabled + disabled,
            if subtractive || additive {
                enabled
            } else {
                Seq::empty()
            },
            names_of_tokens(tokens),
        )
    }
}

pub open spec fn token_views(tokens: Seq<String>) -> Seq<Seq<char>> {
    tokens.map_values(|t: String| t@)
}

pub open spec fn outcome(r: Result<Vec<Rc<Adapter>>, SelectError>) -> Selection {
    match r {
        Ok(list) => Selection::Chosen(list@),
        Err(SelectError::UnknownAdapter(name)) => Selection::UnknownAdapter(name@),
        Err(SelectError::NotInList(name)) => Selection::NotInList(name@),
    }
}

proof fn lemma_position(list: Seq<Rc<Adapter>>, name: Seq<char>, i: int)
    requires
        0 <= i <= list.len(),
        forall|j: int| 0 <= j < i ==> name_of(#[trigger] list[j]) != name,
        i < list.len() ==> name_of(list[i]) == name,
    ensures
        position(list, name) == i,
    decreases i,
{
    if i > 0 {
        let rest = list.drop_first();
        assert forall|j: int| 0 <= j < i - 1 implies name_of(#[trigger] rest[j]) != name by {
            assert(rest[j] == list[j + 1]);
        }
        lemma_position(rest, name, i - 1);
    }
}

proof fn lemma_lookup_found(known: Seq<Rc<Adapter>>, name: Seq<char>, i: int)
    requires
        0 <= i < known.len(),
        name_of(known[i]) == name,
        forall|j: int| i < j < known.len() ==> name_of(#[trigger] known[j]) != name,
    ensures
        lookup(known, name) == Some(known[i]),
    decreases known.len(),
{
    if i < known.len() - 1 {
        let rest = known.drop_last();
        assert forall|j: int| i < j < rest.len() implies name_of(#[trigger] rest[j]) != name by {
            assert(rest[j] == known[j]);
        }
        lemma_lookup_found(rest, name, i);
    }
}

proof fn lemma_lookup_absent(known: Seq<Rc<Adapter>>, name: Seq<char>)
    requires
        forall|j: int| 0 <= j < known.len() ==> name_of(#[trigger] known[j]) != name,
    ensures
        lookup(known, name) is None,
    decreases known.len(),
{
    if known.len() > 0 {
        let rest = known.drop_last();
        assert forall|j: int| 0 <= j < rest.len() implies name_of(#[trigger] rest[j]) != name by {
            assert(rest[j] == known[j]);
        }
        lemma_lookup_absent(rest, name);
    }
}

/// `Rc::clone`: a second handle to the same adapter.
#[verifier::external_body]
fn share(a: &Rc<Adapter>) -> (r: Rc<Adapter>)
    ensures
        r == *a,
{
    Rc::clone(a)
}

fn share_all(list: &Vec<Rc<Adapter>>) -> (r: Vec<Rc<Adapter>>)
    ensures
        r@ == list@,
{
    let mut out: Vec<Rc<Adapter>> = Vec::new();
    let mut i: usize = 0;
    while i < list.len()
        invariant
            i <= list@.len(),
            out@ == list@.subrange(0, i as int),
        decreases list@.len() - i,
    {
        out.push(share(&list[i]));
        assert(out@ =~= list@.subrange(0, i + 1));
        i += 1;
    }
    assert(out@ =~= list@);
    out
}

/// The index of the first adapter of the list with that name.
fn find_position(list: &Vec<Rc<Adapter>>, name: &String) -> (r: Option<usize>)
    ensures
        match r {
            Some(i) => i < list@.len() && i == position(list@, name@),
            None => position(list@, name@) == list@.len(),
        },
{
    let mut i: usize = 0;
    while i < list.len()
        invariant
            i <= list@.len(),
            forall|j: int| 0 <= j < i ==> name_of(#[trigger] list@[j]) != name@,
        decreases list@.len() - i,
    {
        if list[i].meta.name == *name {
            proof {
                lemma_position(list@, name@, i as int);
            }
            return Some(i);
        }
        i += 1;
    }
    proof {
        lemma_position(list@, name@, i as int);
    }
    None
}

/// The last adapter of the list with that name.
fn find_last(list: &Vec<Rc<Adapter>>, name: &String) -> (r: Option<usize>)
    ensures
        match r {
            Some(i) => i < list@.len() && name_of(list@[i as int]) == name@ && forall|j: int|
                i < j < list@.len() ==> name_of(#[trigger] list@[j]) != name@,
            None => forall|j: int| 0 <= j < list@.len() ==> name_of(#[trigger] list@[j]) != name@,
        },
{
    let mut i: usize = list.len();
    while i > 0
        invariant
            i <= list@.len(),
            forall|j: int| i <= j < list@.len() ==> name_of(#[trigger] list@[j]) != name@,
        decreases i,
    {
        i -= 1;
        if list[i].meta.name == *name {
            return Some(i);
        }
    }
    None
}

/// Resolves a name over both default lists.
fn resolve(enabled: &Vec<Rc<Adapter>>, disabled: &Vec<Rc<Adapter>>, name: &String) -> (r: Option<
    Rc<Adapter>,
>)
    ensures
        r == lookup(enabled@ + disabled@, name@),
{
    let ghost known = enabled@ + disabled@;
    match find_last(disabled, name) {
        Some(i) => {
            proof {
                lemma_lookup_found(known, name@, enabled@.len() + i);
            }
            Some(share(&disabled[i]))
        },
        None => match find_last(enabled, name) {
            Some(i) => {
                proof {
                    lemma_lookup_found(known, name@, i as int);
                }
                Some(share(&enabled[i]))
            },
            None => {
                proof {
                    lemma_lookup_absent(known, name@);
                }
                None
            },
        },
    }
}

/// The name that the token at `i` stands for.
fn name_at(adapter_names: &[String], i: usize, signed: bool) -> (r: String)
    requires
        i < adapter_names@.len(),
        signed == (has_sign(adapter_names@[0]@, '-') || has_sign(adapter_names@[0]@, '+')),
    ensures
        r@ == names_of_tokens(token_views(adapter_names@))[i as int],
{
    let token = adapter_names[i].as_str();
    if i == 0 && signed {
        let n = token.unicode_len();
        String::from_str(token.substring_char(1, n))
    } else {
        String::from_str(token)
    }
}

/// Whether the token starts with the sign.
fn starts_with_sign(token: &String, sign: char) -> (r: bool)
    ensures
        r == has_sign(token@, sign),
{
    let s = token.as_str();
    s.unicode_len() > 0 && s.get_char(0) == sign
}

/// Filters the adapters of the two default lists by the given names:
///
///  - no token at all means the default enabled list;
///  - `-a`, `b` means the default list without a and b;
///  - `+a`, `b` means the default list and then a and b;
///  - `a`, `b` means a and b, in that order.
pub fn select_adapters(
    enabled: &Vec<Rc<Adapter>>,
    disabled: &Vec<Rc<Adapter>>,
    adapter_names: &[String],
) -> (r: Result<Vec<Rc<Adapter>>, SelectError>)
    ensures
        outcome(r) == selection(enabled@, disabled@, token_views(adapter_names@)),
        adapter_names@.len() == 0 ==> r is Ok && r->Ok_0@ == enabled@,
{
    if adapter_names.len() == 0 {
        return Ok(share_all(enabled));
    }
    let subtractive = starts_with_sign(&adapter_names[0], '-');
    let signed = subtractive || starts_with_sign(&adapter_names[0], '+');
    let ghost tokens = token_views(adapter_names@);
    let ghost names = names_of_tokens(tokens);
    let ghost known = enabled@ + disabled@;
    let mut adapters: Vec<Rc<Adapter>> = if signed {
        share_all(enabled)
    } else {
        Vec::new()
    };
    let ghost seed = adapters@;
    proof {
        assert(names.skip(0) =~= names);
    }
    let mut i: usize = 0;
    while i < adapter_names.len()
        invariant
            i <= adapter_names@.len(),
            adapter_names@.len() > 0,
            tokens == token_views(adapter_names@),
            names == names_of_tokens(tokens),
            names.len() == adapter_names@.len(),
            known == enabled@ + disabled@,
            selection(enabled@, disabled@, tokens) == apply(subtractive, known, seed, names),
            signed == (has_sign(adapter_names@[0]@, '-') || has_sign(adapter_names@[0]@, '+')),
            apply(subtractive, known, seed, names) == apply(
                subtractive,
                known,
                adapters@,
                names.skip(i as int),
            ),
        decreases adapter_names@.len() - i,
    {
        let name = name_at(adapter_names, i, signed);
        proof {
            assert(names.skip(i as int)[0] == name@);
            assert(names.skip(i as int).drop_first() =~= names.skip(i + 1));
        }
        if subtractive {
            match find_position(&adapters, &name) {
                Some(inx) => {
                    adapters.remove(inx);
                },
                None => {
                    return Err(SelectError::NotInList(name));
                },
            }
        } else {
            match resolve(enabled, disabled, &name) {
                Some(adapter) => {
                    adapters.push(adapter);
                },
                None => {
                    return Err(SelectError::UnknownAdapter(name));
                },
            }
        }
        i += 1;
    }
    Ok(adapters)
}

pub open spec fn names_of(list: Seq<Rc<Adapter>>) -> Seq<Seq<char>> {
    list.map_values(|a: Rc<Adapter>| name_of(a))
}

/// No two adapters of the list carry the same name.
pub open spec fn distinct_names(list: Seq<Rc<Adapter>>) -> bool {
    forall|i: int, j: int|
        0 <= i < j < list.len() ==> name_of(#[trigger] list[i]) != name_of(#[trigger] list[j])
}

pub open spec fn extensions_of(matchers: Seq<FastMatcher>) -> Seq<Seq<char>> {
    matchers.map_values(
        |m: FastMatcher|
            match m {
                FastMatcher::FileExtension(ext) => ext@,
            },
    )
}

pub open spec fn views_of(words: Seq<&str>) -> Seq<Seq<char>> {
    words.map_values(|w: &str| w@)
}

pub open spec fn view_of(word: Option<&str>) -> Option<Seq<char>> {
    match word {
        Some(w) => Some(w@),
        None => None,
    }
}

/// Whether the adapter carries that name and version, recognises files by
/// those extensions and, where content types are detected, by that MIME type
/// instead.
pub open spec fn recognises(
    a: Rc<Adapter>,
    name: Seq<char>,
    version: int,
    extensions: Seq<Seq<char>>,
    mime: Option<Seq<char>>,
) -> bool {
    &&& name_of(a) == name
    &&& a.meta.version == version
    &&& extensions_of(a.meta.fast_matchers@) == extensions
    &&& match mime {
        None => a.meta.slow_matchers is None,
        Some(m) => a.meta.slow_matchers is Some && a.meta.slow_matchers->0@.len() == 1 && (
        a.meta.slow_matchers->0@[0] matches SlowMatcher::MimeType(t) && t@ == m),
    }
}

/// An adapter for files with one of the given extensions and, where content
/// types are detected, for files of the given MIME type instead.
fn builtin(
    name: &str,
    version: i32,
    description: &str,
    extensions: Vec<&str>,
    mime: Option<&str>,
) -> (r: Rc<Adapter>)
    ensures
        recognises(r, name@, version as int, views_of(extensions@), view_of(mime)),
        r.meta.description@ == description@,
{
    let mut fast_matchers: Vec<FastMatcher> = Vec::new();
    let mut i: usize = 0;
    while i < extensions.len()
        invariant
            i <= extensions@.len(),
            fast_matchers@.len() == i,
            forall|j: int|
                0 <= j < i ==> extensions_of(fast_matchers@)[j] == (#[trigger] extensions@[j])@,
        decreases extensions@.len() - i,
    {
        fast_matchers.push(FastMatcher::FileExtension(String::from_str(extensions[i])));
        i += 1;
    }
    assert(extensions_of(fast_matchers@) =~= views_of(extensions@));
    let slow_matchers = match mime {
        Some(m) => {
            let mut v: Vec<SlowMatcher> = Vec::new();
            v.push(SlowMatcher::MimeType(String::from_str(m)));
            Some(v)
        },
        None => None,
    };
    Rc::new(
        Adapter {
            meta: AdapterMeta {
                name: String::from_str(name),
                version,
                description: String::from_str(description),
                fast_matchers,
                slow_matchers,
            },
        },
    )
}

/// The names of the adapters that are enabled by default, most preferred first.
pub open spec fn default_names() -> Seq<Seq<char>> {
    seq!["ffmpeg"@, "pandoc"@, "poppler"@, "zip"@, "tar"@, "sqlite"@]
}

/// Whether the list holds the adapters that are enabled by default, most
/// preferred first.
pub open spec fn is_default_list(enabled: Seq<Rc<Adapter>>) -> bool {
    &&& names_of(enabled) == default_names()
    &&& distinct_names(enabled)
    &&& recognises(enabled[0], "ffmpeg"@, 1, seq!["mkv"@, "mp4"@, "avi"@], None)
    &&& recognises(
        enabled[1],
        "pandoc"@,
        3,
        seq!["epub"@, "odt"@, "docx"@, "fb2"@, "ipynb"@],
        None,
    )
    &&& recognises(enabled[2], "poppler"@, 1, seq!["pdf"@], Some("application/pdf"@))
    &&& recognises(enabled[3], "zip"@, 1, seq!["zip"@], Some("application/zip"@))
    &&& recognises(enabled[4], "tar"@, 1, seq!["tar"@], None)
    &&& recognises(
        enabled[5],
        "sqlite"@,
        1,
        seq!["db"@, "db3"@, "sqlite"@, "sqlite3"@],
        Some("application/x-sqlite3"@),
    )
}

/// The built-in adapters: those enabled by default and those disabled by
/// default, each list in descending priority.
pub fn get_adapters() -> (r: (Vec<Rc<Adapter>>, Vec<Rc<Adapter>>))
    ensures
        is_default_list(r.0@),
        r.1@.len() == 0,
        distinct_names(r.0@ + r.1@),
{
    let extensions = vec!["mkv", "mp4", "avi"];
    proof {
        assert(extensions@ =~= seq!["mkv", "mp4", "avi"]);
        assert(views_of(extensions@) =~= seq!["mkv"@, "mp4"@, "avi"@]);
    }
    let ffmpeg = builtin(
        "ffmpeg",
        1,
        "Uses ffmpeg to extract video metadata/chapters and subtitles",
        extensions,
        None,
    );
    let extensions = vec!["epub", "odt", "docx", "fb2", "ipynb"];
    proof {
        assert(extensions@ =~= seq!["epub", "odt", "docx", "fb2", "ipynb"]);
        assert(views_of(extensions@) =~= seq!["epub"@, "odt"@, "docx"@, "fb2"@, "ipynb"@]);
    }
    let pandoc = builtin(
        "pandoc",
        3,
        "Uses pandoc to convert binary/unreadable text documents to plain markdown-like text",
        extensions,
        None,
    );
    let extensions = vec!["pdf"];
    proof {
        assert(extensions@ =~= seq!["pdf"]);
        assert(views_of(extensions@) =~= seq!["pdf"@]);
        assert(view_of(Some("application/pdf")) == Some("application/pdf"@));
    }
    let poppler = builtin(
        "poppler",
        1,
        "Uses pdftotext (from poppler-utils) to extract plain text from PDF files",
        extensions,
        Some("application/pdf"),
    );
    let extensions = vec!["zip"];
    proof {
        assert(extensions@ =~= seq!["zip"]);
        assert(views_of(extensions@) =~= seq!["zip"@]);
        assert(view_of(Some("application/zip")) == Some("application/zip"@));
    }
    let zip = builtin(
        "zip",
        1,
        "Reads a zip file as a stream and recurses down into its contents",
        extensions,
        Some("application/zip"),
    );
    let extensions = vec!["tar"];
    proof {
        assert(extensions@ =~= seq!["tar"]);
        assert(views_of(extensions@) =~= seq!["tar"@]);
    }
    let tar = builtin(
        "tar",
        1,
        "Reads a tar file as a stream and recurses down into its contents",
        extensions,
        None,
    );
    let extensions = vec!["db", "db3", "sqlite", "sqlite3"];
    proof {
        assert(extensions@ =~= seq!["db", "db3", "sqlite", "sqlite3"]);
        assert(views_of(extensions@) =~= seq!["db"@, "db3"@, "sqlite"@, "sqlite3"@]);
        assert(view_of(Some("application/x-sqlite3")) == Some("application/x-sqlite3"@));
    }
    let sqlite = builtin(
        "sqlite",
        1,
        "Uses sqlite bindings to convert sqlite databases into a simple plain text format",
        extensions,
        Some("application/x-sqlite3"),
    );
    // order in descending priority
    let enabled_adapters: Vec<Rc<Adapter>> = vec![ffmpeg, pandoc, poppler, zip, tar, sqlite];
    let disabled_adapters: Vec<Rc<Adapter>> = Vec::new();
    proof {
        assert(enabled_adapters@ =~= seq![ffmpeg, pandoc, poppler, zip, tar, sqlite]);
        assert(names_of(enabled_adapters@) =~= default_names());
        assert(enabled_adapters@ + disabled_adapters@ =~= enabled_adapters@);
        reveal_strlit("ffmpeg");
        reveal_strlit("pandoc");
        reveal_strlit("poppler");
        reveal_strlit("zip");
        reveal_strlit("tar");
        reveal_strlit("sqlite");
        let names = default_names();
        assert(names[0][0] == 'f' && names[1][0] == 'p' && names[2][0] == 'p');
        assert(names[3][0] == 'z' && names[4][0] == 't' && names[5][0] == 's');
        assert(names[1][1] == 'a' && names[2][1] == 'o');
        assert forall|i: int, j: int| 0 <= i < j < 6 implies names[i] != names[j] by {}
        assert forall|i: int, j: int| 0 <= i < j < enabled_adapters@.len() implies name_of(
            #[trigger] enabled_adapters@[i],
        ) != name_of(#[trigger] enabled_adapters@[j]) by {
            assert(names_of(enabled_adapters@)[i] == name_of(enabled_adapters@[i]));
            assert(names_of(enabled_adapters@)[j] == name_of(enabled_adapters@[j]));
        }
    }
    (enabled_adapters, disabled_adapters)
}

/// Filters the built-in adapters by the given names:
///
///  - no token at all means the default enabled list;
///  - `-a`, `b` means the default list without a and b;
///  - `+a`, `b` means the default list and then a and b;
///  - `a`, `b` means a and b, in that order.
pub fn get_adapters_filtered(adapter_names: &[String]) -> (r: Result<
    Vec<Rc<Adapter>>,
    SelectError,
>)
    ensures
        exists|enabled: Seq<Rc<Adapter>>| #[trigger]
            is_default_list(enabled) && outcome(r) == selection(
                enabled,
                Seq::empty(),
                token_views(adapter_names@),
            ),
        adapter_names@.len() == 0 ==> r is Ok && names_of(r->Ok_0@) == default_names(),
{
    let (def_enabled_adapters, def_disabled_adapters) = get_adapters();
    proof {
        assert(def_disabled_adapters@ =~= Seq::empty());
        assert(def_enabled_adapters@ + def_disabled_adapters@ =~= def_enabled_adapters@);
        assert(is_default_list(def_enabled_adapters@));
    }
    select_adapters(&def_enabled_adapters, &def_disabled_adapters, adapter_names)
}

/// The adapters that the names resolve to, in the order of the names.
pub open spec fn resolved(known: Seq<Rc<Adapter>>, names: Seq<Seq<char>>) -> Seq<Rc<Adapter>> {
    names.map_values(|n: Seq<char>| lookup(known, n)->0)
}

/// Inclusion stops at the first name that no known adapter carries; where
/// every name resolves, the adapters are appended in the order of the names.
pub proof fn lemma_apply_inclusive(
    known: Seq<Rc<Adapter>>,
    work: Seq<Rc<Adapter>>,
    names: Seq<Seq<char>>,
    k: int,
)
    requires
        0 <= k <= names.len(),
        forall|j: int| 0 <= j < k ==> lookup(known, #[trigger] names[j]) is Some,
        k < names.len() ==> lookup(known, names[k]) is None,
    ensures
        k == names.len() ==> apply(false, known, work, names) == Selection::Chosen(
            work + resolved(known, names),
        ),
        k < names.len() ==> apply(false, known, work, names) == Selection::UnknownAdapter(
            names[k],
        ),
    decreases names.len(),
{
    if names.len() == 0 {
        assert(work + resolved(known, names) =~= work);
    } else if k > 0 {
        let rest = names.drop_first();
        let first = lookup(known, names[0])->0;
        assert forall|j: int| 0 <= j < k - 1 implies lookup(known, #[trigger] rest[j]) is Some by {
            assert(rest[j] == names[j + 1]);
        }
        lemma_apply_inclusive(known, work.push(first), rest, k - 1);
        if k == names.len() {
            assert(work.push(first) + resolved(known, rest) =~= work + resolved(known, names));
        }
    }
}

/// Where the name occurs in the list, its position is that of the first
/// adapter that carries it; where it does not, the position is the length.
pub proof fn lemma_position_first(list: Seq<Rc<Adapter>>, name: Seq<char>)
    ensures
        0 <= position(list, name) <= list.len(),
        position(list, name) < list.len() ==> name_of(list[position(list, name)]) == name,
        forall|j: int| 0 <= j < position(list, name) ==> name_of(#[trigger] list[j]) != name,
    decreases list.len(),
{
    if list.len() > 0 && name_of(list[0]) != name {
        let rest = list.drop_first();
        lemma_position_first(rest, name);
        assert forall|j: int| 0 <= j < position(list, name) implies name_of(#[trigger] list[j])
            != name by {
            if j > 0 {
                assert(list[j] == rest[j - 1]);
            }
        }
    }
}

/// An explicit list, one whose first token carries no sign, selects the
/// adapters that its tokens name: in the order of the tokens, and as often as
/// a name is repeated.
pub proof fn law_explicit_selection(
    enabled: Seq<Rc<Adapter>>,
    disabled: Seq<Rc<Adapter>>,
    tokens: Seq<Seq<char>>,
)
    requires
        tokens.len() > 0,
        !has_sign(tokens[0], '-'),
        !has_sign(tokens[0], '+'),
        forall|i: int| 0 <= i < tokens.len() ==> lookup(enabled + disabled, #[trigger] tokens[i]) is Some,
    ensures
        selection(enabled, disabled, tokens) == Selection::Chosen(
            resolved(enabled + disabled, tokens),
        ),
        resolved(enabled + disabled, tokens).len() == tokens.len(),
{
    let known = enabled + disabled;
    lemma_apply_inclusive(known, Seq::empty(), tokens, tokens.len() as int);
    assert(Seq::<Rc<Adapter>>::empty() + resolved(known, tokens) =~= resolved(known, tokens));
}

/// With no token at all the selection is the default enabled list as it is.
pub proof fn law_empty_override(enabled: Seq<Rc<Adapter>>, disabled: Seq<Rc<Adapter>>)
    ensures
        selection(enabled, disabled, Seq::empty()) == Selection::Chosen(enabled),
{
}

/// Removing one name that the default list holds gives that list without the
/// first adapter of that name; the others keep their order.
pub proof fn law_remove_one(
    enabled: Seq<Rc<Adapter>>,
    disabled: Seq<Rc<Adapter>>,
    name: Seq<char>,
)
    requires
        position(enabled, name) < enabled.len(),
    ensures
        selection(enabled, disabled, seq![seq!['-'] + name]) == Selection::Chosen(
            enabled.remove(position(enabled, name)),
        ),
        0 <= position(enabled, name),
        name_of(enabled[position(enabled, name)]) == name,
        forall|j: int| 0 <= j < position(enabled, name) ==> name_of(#[trigger] enabled[j]) != name,
{
    lemma_position_first(enabled, name);
    let token = seq!['-'] + name;
    let tokens = seq![token];
    assert(token.drop_first() =~= name);
    let names = names_of_tokens(tokens);
    assert(names =~= seq![name]);
    assert(names.drop_first() =~= Seq::<Seq<char>>::empty());
    let rest = enabled.remove(position(enabled, name));
    assert(apply(true, enabled + disabled, rest, names.drop_first()) == Selection::Chosen(rest));
}

/// While including, the first name that no known adapter carries fails the
/// whole selection, and the failure names that token.
pub proof fn law_unknown_name(
    enabled: Seq<Rc<Adapter>>,
    disabled: Seq<Rc<Adapter>>,
    tokens: Seq<Seq<char>>,
    k: int,
)
    requires
        0 <= k < tokens.len(),
        !has_sign(tokens[0], '-'),
        forall|j: int|
            0 <= j < k ==> lookup(enabled + disabled, #[trigger] names_of_tokens(tokens)[j]) is Some,
        lookup(enabled + disabled, names_of_tokens(tokens)[k]) is None,
    ensures
        selection(enabled, disabled, tokens) == Selection::UnknownAdapter(
            names_of_tokens(tokens)[k],
        ),
{
    let seed = if has_sign(tokens[0], '+') {
        enabled
    } else {
        Seq::empty()
    };
    lemma_apply_inclusive(enabled + disabled, seed, names_of_tokens(tokens), k);
}

/// While removing, a name that no adapter of the working list carries fails
/// the whole selection, and the failure names that token.
pub proof fn law_remove_absent(
    known: Seq<Rc<Adapter>>,
    work: Seq<Rc<Adapter>>,
    names: Seq<Seq<char>>,
)
    requires
        names.len() > 0,
        forall|j: int| 0 <= j < work.len() ==> name_of(#[trigger] work[j]) != names[0],
    ensures
        apply(true, known, work, names) == Selection::NotInList(names[0]),
{
    lemma_position(work, names[0], work.len() as int);
}

/// Removing a name that the default list does not hold fails, whether or not
/// an adapter that is disabled by default carries it.
pub proof fn law_remove_missing_default(
    enabled: Seq<Rc<Adapter>>,
    disabled: Seq<Rc<Adapter>>,
    tokens: Seq<Seq<char>>,
)
    requires
        tokens.len() > 0,
        has_sign(tokens[0], '-'),
        forall|j: int|
            0 <= j < enabled.len() ==> name_of(#[trigger] enabled[j]) != tokens[0].drop_first(),
    ensures
        selection(enabled, disabled, tokens) == Selection::NotInList(tokens[0].drop_first()),
{
    law_remove_absent(enabled + disabled, enabled, names_of_tokens(tokens));
}

/// The working list after the first `n` of the names were removed from it,
/// one after the other.
pub open spec fn after_removals(work: Seq<Rc<Adapter>>, names: Seq<Seq<char>>, n: int) -> Seq<
    Rc<Adapter>,
>
    decreases n,
{
    if n <= 0 || names.len() == 0 {
        work
    } else {
        after_removals(work.remove(position(work, names[0])), names.drop_first(), n - 1)
    }
}

/// Whether the working list holds an adapter of that name.
pub open spec fn holds(work: Seq<Rc<Adapter>>, name: Seq<char>) -> bool {
    position(work, name) < work.len()
}

/// A run of removals fails exactly if some name is not in the working list
/// when its turn comes, and the failure names the first such token; where
/// there is none, the result is the working list after all the removals.
/// `k` is the index of the first such name, or the number of names.
pub proof fn law_removal_run(
    known: Seq<Rc<Adapter>>,
    work: Seq<Rc<Adapter>>,
    names: Seq<Seq<char>>,
    k: int,
)
    requires
        0 <= k <= names.len(),
        forall|j: int| 0 <= j < k ==> holds(after_removals(work, names, j), #[trigger] names[j]),
        k < names.len() ==> !holds(after_removals(work, names, k), names[k]),
    ensures
        k == names.len() ==> apply(true, known, work, names) == Selection::Chosen(
            after_removals(work, names, names.len() as int),
        ),
        k < names.len() ==> apply(true, known, work, names) == Selection::NotInList(names[k]),
    decreases names.len(),
{
    lemma_position_first(work, names[0]);
    if names.len() > 0 && k > 0 {
        let rest = names.drop_first();
        let next = work.remove(position(work, names[0]));
        assert(holds(after_removals(work, names, 0), names[0]));
        assert forall|j: int| 0 <= j < k - 1 implies holds(
            after_removals(next, rest, j),
            #[trigger] rest[j],
        ) by {
            assert(rest[j] == names[j + 1]);
            assert(after_removals(work, names, j + 1) == after_removals(next, rest, j));
        }
        assert(after_removals(work, names, k) == after_removals(next, rest, k - 1));
        law_removal_run(known, next, rest, k - 1);
    }
}

/// Keeps the adapters whose name is none of the given ones.
pub open spec fn keeps(names: Seq<Seq<char>>) -> spec_fn(Rc<Adapter>) -> bool {
    |a: Rc<Adapter>| !names.contains(name_of(a))
}

proof fn lemma_filter_agree(
    list: Seq<Rc<Adapter>>,
    p: spec_fn(Rc<Adapter>) -> bool,
    q: spec_fn(Rc<Adapter>) -> bool,
)
    requires
        forall|i: int| 0 <= i < list.len() ==> p(#[trigger] list[i]) == q(list[i]),
    ensures
        list.filter(p) == list.filter(q),
    decreases list.len(),
{
    reveal(Seq::filter);
    if list.len() > 0 {
        let front = list.drop_last();
        assert forall|i: int| 0 <= i < front.len() implies p(#[trigger] front[i]) == q(
            front[i],
        ) by {
            assert(front[i] == list[i]);
        }
        lemma_filter_agree(front, p, q);
    }
}

proof fn lemma_filter_without(list: Seq<Rc<Adapter>>, i: int, p: spec_fn(Rc<Adapter>) -> bool)
    requires
        0 <= i < list.len(),
        !p(list[i]),
    ensures
        list.filter(p) == list.remove(i).filter(p),
{
    let before = list.subrange(0, i);
    let one = seq![list[i]];
    let after = list.subrange(i + 1, list.len() as int);
    assert(list =~= (before + one) + after);
    assert(list.remove(i) =~= before + after);
    Seq::filter_distributes_over_add(before + one, after, p);
    Seq::filter_distributes_over_add(before, one, p);
    Seq::filter_distributes_over_add(before, after, p);
    assert(one.filter(p) =~= Seq::<Rc<Adapter>>::empty()) by {
        reveal_with_fuel(Seq::filter, 2);
        assert(one.drop_last().len() == 0);
    }
    assert(before.filter(p) + one.filter(p) =~= before.filter(p));
}

/// Removing several names, no two alike, from a list in which no two adapters
/// share a name and which holds them all: exactly the adapters of those names
/// leave, and the others keep their order.
pub proof fn lemma_remove_several(
    known: Seq<Rc<Adapter>>,
    work: Seq<Rc<Adapter>>,
    names: Seq<Seq<char>>,
)
    requires
        distinct_names(work),
        names.no_duplicates(),
        forall|i: int| 0 <= i < names.len() ==> holds(work, #[trigger] names[i]),
    ensures
        apply(true, known, work, names) == Selection::Chosen(work.filter(keeps(names))),
        work.filter(keeps(names)).len() == work.len() - names.len(),
    decreases names.len(),
{
    if names.len() == 0 {
        lemma_filter_agree(work, keeps(names), |a: Rc<Adapter>| true);
        assert(work.filter(|a: Rc<Adapter>| true) == work) by {
            lemma_filter_all(work);
        }
    } else {
        let first = names[0];
        let rest = names.drop_first();
        lemma_position_first(work, first);
        let i = position(work, first);
        let next = work.remove(i);
        assert(holds(work, names[0]));
        assert(distinct_names(next)) by {
            assert forall|a: int, b: int| 0 <= a < b < next.len() implies name_of(
                #[trigger] next[a],
            ) != name_of(#[trigger] next[b]) by {
                let a0 = if a < i { a } else { a + 1 };
                let b0 = if b < i { b } else { b + 1 };
                assert(next[a] == work[a0] && next[b] == work[b0]);
            }
        }
        assert(rest.no_duplicates()) by {
            assert forall|a: int, b: int| 0 <= a < rest.len() && 0 <= b < rest.len() && a
                != b implies rest[a] != rest[b] by {
                assert(rest[a] == names[a + 1] && rest[b] == names[b + 1]);
            }
        }
        assert forall|j: int| 0 <= j < rest.len() implies holds(next, #[trigger] rest[j]) by {
            assert(rest[j] == names[j + 1]);
            assert(holds(work, names[j + 1]));
            lemma_position_first(work, rest[j]);
            let m = position(work, rest[j]);
            assert(rest[j] != first);
            assert(m != i);
            let m0 = if m < i { m } else { m - 1 };
            assert(next[m0] == work[m]);
            lemma_position_first(next, rest[j]);
        }
        lemma_remove_several(known, next, rest);
        assert(!keeps(names)(work[i])) by {
            assert(names[0] == name_of(work[i]));
        }
        lemma_filter_without(work, i, keeps(names));
        assert forall|j: int| 0 <= j < next.len() implies keeps(names)(#[trigger] next[j])
            == keeps(rest)(next[j]) by {
            let j0 = if j < i { j } else { j + 1 };
            assert(next[j] == work[j0]);
            assert(name_of(work[j0]) != first);
            let n = name_of(next[j]);
            if names.contains(n) {
                let w = choose|w: int| 0 <= w < names.len() && names[w] == n;
                assert(w > 0);
                assert(rest[w - 1] == n);
            }
            if rest.contains(n) {
                let w = choose|w: int| 0 <= w < rest.len() && rest[w] == n;
                assert(names[w + 1] == n);
            }
        }
        lemma_filter_agree(next, keeps(names), keeps(rest));
    }
}

proof fn lemma_filter_all(list: Seq<Rc<Adapter>>)
    ensures
        list.filter(|a: Rc<Adapter>| true) == list,
    decreases list.len(),
{
    reveal(Seq::filter);
    if list.len() > 0 {
        lemma_filter_all(list.drop_last());
        assert(list.drop_last().push(list.last()) =~= list);
    }
}

/// Removing several names of the default list in one expression gives that
/// list without exactly the adapters of those names, the others in their
/// order, provided that no name is given twice and no two adapters of the
/// list share a name.
pub proof fn law_remove_several(
    enabled: Seq<Rc<Adapter>>,
    disabled: Seq<Rc<Adapter>>,
    tokens: Seq<Seq<char>>,
)
    requires
        tokens.len() > 0,
        has_sign(tokens[0], '-'),
        distinct_names(enabled),
        names_of_tokens(tokens).no_duplicates(),
        forall|i: int|
            0 <= i < tokens.len() ==> holds(enabled, #[trigger] names_of_tokens(tokens)[i]),
    ensures
        selection(enabled, disabled, tokens) == Selection::Chosen(
            enabled.filter(keeps(names_of_tokens(tokens))),
        ),
        enabled.filter(keeps(names_of_tokens(tokens))).len() == enabled.len() - tokens.len(),
{
    lemma_remove_several(enabled + disabled, enabled, names_of_tokens(tokens));
}

} // verus!
