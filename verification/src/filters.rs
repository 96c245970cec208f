//! The filter set of one invocation, and what is built from it: the request
//! URL and the launcher's command line.

use vstd::prelude::*;
use vstd::string::StringExecFns;
use crate::text::{
    chars_of, join, join_text, lowercase, split, split_text, string_of, to_uppercase, trim,
    trim_bounds, uppercase, views,
};

verus! {

/// The joke API's endpoint; the category follows it directly.
pub const BASE_URL: &'static str = "https://v2.jokeapi.dev/joke/";

/// Where the joke is written when no export path is given.
pub const DEFAULT_EXPORT_PATH: &'static str = "/etc/motd.d/jokes";

/// The arguments of one invocation. A filter that is `None` leaves the
/// choice to the API; the export path always has a value.
#[derive(Clone, Debug)]
pub struct Args {
    pub install: Option<String>,
    pub uninstall: Option<String>,
    pub gen_script: bool,
    pub category: Option<String>,
    pub language: Option<String>,
    pub black_list: Option<String>,
    pub joke_type: Option<String>,
    pub content: Option<String>,
    pub export_path: String,
}

/// The arguments as plain sequences of characters.
pub struct ArgsView {
    pub install: Option<Seq<char>>,
    pub uninstall: Option<Seq<char>>,
    pub gen_script: bool,
    pub category: Option<Seq<char>>,
    pub language: Option<Seq<char>>,
    pub black_list: Option<Seq<char>>,
    pub joke_type: Option<Seq<char>>,
    pub content: Option<Seq<char>>,
    pub export_path: Seq<char>,
}

/// The characters of an optional string.
pub open spec fn text_of(o: Option<String>) -> Option<Seq<char>> {
    match o {
        Some(s) => Some(s@),
        None => None,
    }
}

impl View for Args {
    type V = ArgsView;

    open spec fn view(&self) -> ArgsView {
        ArgsView {
            install: text_of(self.install),
            uninstall: text_of(self.uninstall),
            gen_script: self.gen_script,
            category: text_of(self.category),
            language: text_of(self.language),
            black_list: text_of(self.black_list),
            joke_type: text_of(self.joke_type),
            content: text_of(self.content),
            export_path: self.export_path@,
        }
    }
}

impl Default for Args {
    /// No action, no filter, and the default export path.
    fn default() -> (r: Args)
        ensures
            r@ == (ArgsView {
                install: None,
                uninstall: None,
                gen_script: false,
                category: None,
                language: None,
                black_list: None,
                joke_type: None,
                content: None,
                export_path: DEFAULT_EXPORT_PATH@,
            }),
    {
        Args {
            install: None,
            uninstall: None,
            gen_script: false,
            category: None,
            language: None,
            black_list: None,
            joke_type: None,
            content: None,
            export_path: DEFAULT_EXPORT_PATH.to_owned(),
        }
    }
}

/// One category token as the API spells it: trimmed, its first character in
/// upper case and the rest in lower case. A blank token stays empty.
pub open spec fn capitalize(word: Seq<char>) -> Seq<char> {
    let t = trim(word);
    if t.len() == 0 {
        Seq::<char>::empty()
    } else {
        uppercase(t[0]) + lowercase(t.drop_first())
    }
}

/// A comma-separated list with every token capitalized.
pub open spec fn capitalized_words(input: Seq<char>) -> Seq<char> {
    join(split(input, ',').map_values(|w: Seq<char>| capitalize(w)), ","@)
}

/// The path segment that names the category: `Any` when none is chosen.
pub open spec fn category_segment(category: Option<Seq<char>>) -> Seq<char> {
    match category {
        Some(c) => capitalized_words(c),
        None => "Any"@,
    }
}

/// `key`, the value and `&` when the value is present, nothing otherwise.
pub open spec fn query_param(key: Seq<char>, value: Option<Seq<char>>) -> Seq<char> {
    match value {
        Some(v) => key + v + "&"@,
        None => Seq::<char>::empty(),
    }
}

/// The lower-case form of an optional text.
pub open spec fn lowered(value: Option<Seq<char>>) -> Option<Seq<char>> {
    match value {
        Some(v) => Some(lowercase(v)),
        None => None,
    }
}

/// The capitalized form of an optional list of words.
pub open spec fn capitalized(value: Option<Seq<char>>) -> Option<Seq<char>> {
    match value {
        Some(v) => Some(capitalized_words(v)),
        None => None,
    }
}

/// The endpoint with the category segment and the question mark.
pub open spec fn url_head(a: ArgsView) -> Seq<char> {
    BASE_URL@ + category_segment(a.category) + "?"@
}

/// The request URL: the head, then one `key=value&` for each filter that is
/// present, in the order language, black list, type, content. Values are
/// not encoded and the last `&` stays.
pub open spec fn url_of(a: ArgsView) -> Seq<char> {
    url_head(a) + query_param("lang="@, a.language) + query_param(
        "blacklistFlags="@,
        lowered(a.black_list),
    ) + query_param("type="@, a.joke_type) + query_param("contains="@, a.content)
}

/// A long-form flag with its value, when the value is present.
pub open spec fn flag(key: Seq<char>, value: Option<Seq<char>>) -> Seq<Seq<char>> {
    match value {
        Some(v) => seq![key + v],
        None => Seq::<Seq<char>>::empty(),
    }
}

/// The flags that reproduce the filter set, in their fixed order. The export
/// path is always among them.
pub open spec fn flags_of(a: ArgsView) -> Seq<Seq<char>> {
    flag("--category "@, capitalized(a.category)) + flag("--language "@, a.language) + flag(
        "--black-list "@,
        lowered(a.black_list),
    ) + flag("--joke-type "@, a.joke_type) + flag("--content "@, a.content) + flag(
        "--export-path "@,
        Some(a.export_path),
    )
}

/// The flags written on one line, a blank between neighbours.
pub open spec fn args_string_of(a: ArgsView) -> Seq<char> {
    join(flags_of(a), " "@)
}

/// Capitalizes one token of a category list.
pub fn capitalize_word(word: &str) -> (r: String)
    ensures
        r@ == capitalize(word@),
{
    let v = chars_of(word);
    let (lo, hi) = trim_bounds(&v);
    if lo == hi {
        String::new()
    } else {
        let first = to_uppercase(v[lo]);
        let rest = string_of(&v, lo + 1, hi);
        let lower = rest.as_str().to_lowercase();
        assert(v@.subrange(lo + 1, hi as int) == v@.subrange(lo as int, hi as int).drop_first());
        first.concat(lower.as_str())
    }
}

/// Capitalizes every token of a comma-separated list and joins them with
/// commas again.
pub fn capitalize_words(input: &str) -> (r: String)
    ensures
        r@ == capitalized_words(input@),
{
    let words = split_text(input, ',');
    let mut done: Vec<String> = Vec::new();
    let mut i: usize = 0;
    while i < words.len()
        invariant
            i <= words.len(),
            views(done@) == views(words@).take(i as int).map_values(|w: Seq<char>| capitalize(w)),
        decreases words.len() - i,
    {
        let w = capitalize_word(words[i].as_str());
        let ghost before = views(done@);
        done.push(w);
        i = i + 1;
        assert(views(done@) =~= before.push(w@));
        assert(views(words@).take(i as int) =~= views(words@).take(i - 1).push(words@[i - 1]@));
        assert(views(done@) =~= views(words@).take(i as int).map_values(
            |w: Seq<char>| capitalize(w),
        ));
    }
    assert(views(words@).take(i as int) == views(words@));
    join_text(&done, ",")
}

/// Appends `key`, `value` and `&` to the URL.
fn push_param(url: &mut String, key: &str, value: &str)
    ensures
        final(url)@ == old(url)@ + query_param(key@, Some(value@)),
{
    url.append(key);
    url.append(value);
    url.append("&");
    assert(final(url)@ == old(url)@ + (key@ + value@ + "&"@));
}

/// Builds the request URL for a filter set.
///
/// The result is a function of the filters alone. It always begins with the
/// endpoint, the category segment and `?`; without a category the segment is
/// `Any`.
pub fn generate_url(args: Args) -> (url: String)
    ensures
        url@ == url_of(args@),
        url_head(args@).is_prefix_of(url@),
        args.category is None ==> (BASE_URL@ + "Any"@ + "?"@).is_prefix_of(url@),
{
    let mut url = BASE_URL.to_owned();
    match &args.category {
        Some(category) => {
            let c = capitalize_words(category.as_str());
            url.append(c.as_str());
        },
        None => {
            url.append("Any");
        },
    }
    url.append("?");
    assert(url@ == url_head(args@));
    if let Some(language) = &args.language {
        push_param(&mut url, "lang=", language.as_str());
    }
    if let Some(black_list) = &args.black_list {
        let lower = black_list.as_str().to_lowercase();
        push_param(&mut url, "blacklistFlags=", lower.as_str());
    }
    if let Some(joke_type) = &args.joke_type {
        push_param(&mut url, "type=", joke_type.as_str());
    }
    if let Some(content) = &args.content {
        push_param(&mut url, "contains=", content.as_str());
    }
    proof {
        lemma_url_starts_with_head(args@);
    }
    url
}

/// Every URL begins with the endpoint, the category segment and `?`, and a
/// filter set without a category asks for `Any`.
pub proof fn lemma_url_starts_with_head(a: ArgsView)
    ensures
        url_head(a).is_prefix_of(url_of(a)),
        a.category is None ==> url_head(a) == BASE_URL@ + "Any"@ + "?"@,
{
    let tail = query_param("lang="@, a.language) + query_param(
        "blacklistFlags="@,
        lowered(a.black_list),
    ) + query_param("type="@, a.joke_type) + query_param("contains="@, a.content);
    assert(url_of(a) == url_head(a) + tail);
}

/// The URL is a function of the category and the four filters alone: two
/// filter sets that agree on them ask with the same URL, whatever else the
/// arguments hold.
pub proof fn lemma_url_depends_on_filters(a: ArgsView, b: ArgsView)
    requires
        a.category == b.category,
        a.language == b.language,
        a.black_list == b.black_list,
        a.joke_type == b.joke_type,
        a.content == b.content,
    ensures
        url_of(a) == url_of(b),
{
}

/// Appends the flag `key` with `value` to the list.
fn push_flag(list: &mut Vec<String>, key: &str, value: &str)
    ensures
        views(final(list)@) == views(old(list)@) + flag(key@, Some(value@)),
{
    let item = key.to_owned().concat(value);
    list.push(item);
    assert(views(final(list)@) == views(old(list)@) + seq![key@ + value@]);
}

/// Writes the filter set back as long-form flags, as the launcher passes them.
pub fn generate_args_string(args: Args) -> (r: String)
    ensures
        r@ == args_string_of(args@),
{
    let mut list: Vec<String> = Vec::new();
    assert(views(list@) == Seq::<Seq<char>>::empty());
    if let Some(category) = &args.category {
        let c = capitalize_words(category.as_str());
        push_flag(&mut list, "--category ", c.as_str());
    }
    if let Some(language) = &args.language {
        push_flag(&mut list, "--language ", language.as_str());
    }
    if let Some(black_list) = &args.black_list {
        let lower = black_list.as_str().to_lowercase();
        push_flag(&mut list, "--black-list ", lower.as_str());
    }
    if let Some(joke_type) = &args.joke_type {
        push_flag(&mut list, "--joke-type ", joke_type.as_str());
    }
    if let Some(content) = &args.content {
        push_flag(&mut list, "--content ", content.as_str());
    }
    push_flag(&mut list, "--export-path ", args.export_path.as_str());
    assert(views(list@) == flags_of(args@));
    join_text(&list, " ")
}

} // verus!
