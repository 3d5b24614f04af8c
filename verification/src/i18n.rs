//! Translations. A missing one falls back to English, an unknown key to
//! itself.

use crate::text::{from_chars, joined, same_text, to_chars};
use vstd::prelude::*;

verus! {

/// A language of the user interface.
#[derive(Clone, Copy, Debug, PartialEq, Eq, Structural)]
pub enum Language {
    English,
    Japanese,
}

impl Default for Language {
    fn default() -> (l: Language)
        ensures
            l == Language::English,
    {
        Language::English
    }
}

/// The language after another, around at the end.
pub open spec fn language_after(l: Language) -> Language {
    match l {
        Language::English => Language::Japanese,
        Language::Japanese => Language::English,
    }
}

impl Language {
    /// The name of the language in itself.
    pub fn native_name(self) -> (name: &'static str)
        ensures
            name@ == match self {
                Language::English => "English"@,
                Language::Japanese => "日本語"@,
            },
    {
        match self {
            Language::English => "English",
            Language::Japanese => "日本語",
        }
    }

    /// The next language, around at the end.
    pub fn next(self) -> (l: Language)
        ensures
            l == language_after(self),
    {
        match self {
            Language::English => Language::Japanese,
            Language::Japanese => Language::English,
        }
    }
}

/// Stepping through the languages reaches every one and comes back.
pub proof fn law_languages_cycle(l: Language, m: Language)
    ensures
        language_after(language_after(l)) == l,
        m == l || m == language_after(l),
{
}

/// The texts of one language by key.
#[derive(Debug)]
pub struct Catalog {
    entries: Vec<(String, String)>,
}

/// The map that a list of entries stands for; later ones win.
pub open spec fn map_of(entries: Seq<(String, String)>) -> Map<Seq<char>, Seq<char>>
    decreases entries.len(),
{
    if entries.len() == 0 {
        Map::empty()
    } else {
        map_of(entries.drop_last()).insert(entries.last().0@, entries.last().1@)
    }
}

/// What `serde_json::from_str` makes of a text as a map from strings to
/// strings; nothing where the text is no such map.
pub uninterp spec fn json_map(text: Seq<char>) -> Option<Map<Seq<char>, Seq<char>>>;

/// Calls `serde_json::from_str` for a map from strings to strings, and lists
/// what is in it. The result depends on nothing but the text.
#[verifier::external_body]
fn parse_json_map(text: &str) -> (entries: Option<Vec<(String, String)>>)
    ensures
        json_map(text@) == match entries {
            Some(e) => Some(map_of(e@)),
            None => None,
        },
{
    let map: std::collections::BTreeMap<String, String> = serde_json::from_str(text).ok()?;
    Some(map.into_iter().collect())
}

impl View for Catalog {
    type V = Map<Seq<char>, Seq<char>>;

    closed spec fn view(&self) -> Map<Seq<char>, Seq<char>> {
        map_of(self.entries@)
    }
}

impl Catalog {
    /// Reads a catalog from JSON; `None` where the text is no map from
    /// strings to strings.
    pub fn parse(text: &str) -> (catalog: Option<Catalog>)
        ensures
            match catalog {
                Some(c) => json_map(text@) == Some(c@),
                None => json_map(text@) is None,
            },
    {
        match parse_json_map(text) {
            Some(entries) => Some(Catalog { entries }),
            None => None,
        }
    }

    /// A catalog with the given entries; later ones win.
    pub fn from_entries(entries: Vec<(String, String)>) -> (catalog: Catalog)
        ensures
            catalog@ == map_of(entries@),
    {
        Catalog { entries }
    }

    /// The text of a key, if there is one.
    pub fn get(&self, key: &str) -> (text: Option<&str>)
        ensures
            match text {
                Some(t) => self@.contains_key(key@) && t@ == self@[key@],
                None => !self@.contains_key(key@),
            },
    {
        let mut n: usize = self.entries.len();
        assert(self.entries@.take(n as int) =~= self.entries@);
        while n > 0
            invariant
                n <= self.entries@.len(),
                self@.contains_key(key@) == map_of(self.entries@.take(n as int)).contains_key(key@),
                self@.contains_key(key@) ==> self@[key@] == map_of(self.entries@.take(n as int))[key@],
            decreases n,
        {
            let ghost upto = self.entries@.take(n as int);
            n -= 1;
            assert(upto.drop_last() =~= self.entries@.take(n as int));
            assert(upto.last() == self.entries@[n as int]);
            if same_text(self.entries[n].0.as_str(), key) {
                return Some(self.entries[n].1.as_str());
            }
        }
        None
    }
}

/// The texts of all languages.
#[derive(Debug)]
pub struct Locales {
    pub english: Catalog,
    pub japanese: Catalog,
}

/// The text of a key: from the language's catalog, else from the English
/// one, else the key itself.
pub open spec fn found(
    locale: Map<Seq<char>, Seq<char>>,
    english: Map<Seq<char>, Seq<char>>,
    key: Seq<char>,
) -> Seq<char> {
    if locale.contains_key(key) {
        locale[key]
    } else if english.contains_key(key) {
        english[key]
    } else {
        key
    }
}

/// The text of a key.
pub fn lookup<'a>(locale: &'a Catalog, english: &'a Catalog, key: &'a str) -> (text: &'a str)
    ensures
        text@ == found(locale@, english@, key@),
{
    match locale.get(key) {
        Some(text) => text,
        None => match english.get(key) {
            Some(text) => text,
            None => key,
        },
    }
}

/// The position of the first `c` at or behind `from`; the length where there
/// is none.
pub open spec fn first_from(s: Seq<char>, c: char, from: int) -> int
    decreases s.len() - from,
{
    if from >= s.len() {
        s.len() as int
    } else if s[from] == c {
        from
    } else {
        first_from(s, c, from + 1)
    }
}

proof fn lemma_first_from(s: Seq<char>, c: char, from: int)
    requires
        0 <= from <= s.len(),
    ensures
        from <= first_from(s, c, from) <= s.len(),
        first_from(s, c, from) < s.len() ==> s[first_from(s, c, from)] == c,
        forall|m: int| from <= m < first_from(s, c, from) ==> s[m] != c,
    decreases s.len() - from,
{
    if from < s.len() && s[from] != c {
        lemma_first_from(s, c, from + 1);
    }
}

fn find_from(s: &Vec<char>, c: char, from: usize) -> (n: usize)
    requires
        from <= s@.len(),
    ensures
        n == first_from(s@, c, from as int),
        from <= n <= s@.len(),
        n < s@.len() ==> s@[n as int] == c,
{
    let mut n: usize = from;
    while n < s.len() && s[n] != c
        invariant
            from <= n <= s@.len(),
            first_from(s@, c, from as int) == first_from(s@, c, n as int),
        decreases s@.len() - n,
    {
        n += 1;
    }
    n
}

/// A named text to insert.
pub type Arg = (String, String);

/// The first argument with a name, if there is one.
pub open spec fn arg_of(args: Seq<Arg>, name: Seq<char>) -> Option<Seq<char>>
    decreases args.len(),
{
    if args.len() == 0 {
        None
    } else if args[0].0@ == name {
        Some(args[0].1@)
    } else {
        arg_of(args.drop_first(), name)
    }
}

/// A template from position `from` on, with each `{name}` replaced by the
/// argument of that name. A name without an argument stays as it is, and so
/// does everything behind a brace that is not closed. What is inserted is not
/// looked at again.
pub open spec fn filled(t: Seq<char>, args: Seq<Arg>, from: int) -> Seq<char>
    decreases t.len() - from,
{
    let start = first_from(t, '{', from);
    let end = first_from(t, '}', start);
    if from < 0 || start < from || end < start || start >= t.len() || end >= t.len() {
        t.subrange(from, t.len() as int)
    } else {
        let name = t.subrange(start + 1, end);
        let value = match arg_of(args, name) {
            Some(v) => v,
            None => t.subrange(start, end + 1),
        };
        t.subrange(from, start) + value + filled(t, args, end + 1)
    }
}

/// The names of the placeholders of a template from position `from` on.
pub open spec fn names_in(t: Seq<char>, from: int) -> Seq<Seq<char>>
    decreases t.len() - from,
{
    let start = first_from(t, '{', from);
    let end = first_from(t, '}', start);
    if from < 0 || start < from || end < start || start >= t.len() || end >= t.len() {
        Seq::empty()
    } else {
        seq![t.subrange(start + 1, end)] + names_in(t, end + 1)
    }
}

/// A text none of whose placeholders has an argument is left as it is,
/// whatever braces it holds, closed or not.
pub proof fn law_plain_text_is_kept(t: Seq<char>, args: Seq<Arg>)
    requires
        forall|n: int|
            0 <= n < names_in(t, 0).len() ==> arg_of(args, #[trigger] names_in(t, 0)[n]) is None,
    ensures
        filled(t, args, 0) == t,
{
    lemma_plain_rest(t, args, 0);
    assert(t.subrange(0, t.len() as int) =~= t);
}

/// A text without an opening brace has no placeholders.
pub proof fn law_no_brace_no_placeholder(t: Seq<char>)
    requires
        !t.contains('{'),
    ensures
        names_in(t, 0) == Seq::<Seq<char>>::empty(),
{
    lemma_first_from(t, '{', 0);
    if first_from(t, '{', 0) < t.len() {
        assert(t.contains('{'));
    }
}

proof fn lemma_plain_rest(t: Seq<char>, args: Seq<Arg>, from: int)
    requires
        0 <= from <= t.len(),
        forall|n: int|
            0 <= n < names_in(t, from).len() ==> arg_of(
                args,
                #[trigger] names_in(t, from)[n],
            ) is None,
    ensures
        filled(t, args, from) == t.subrange(from, t.len() as int),
    decreases t.len() - from,
{
    let start = first_from(t, '{', from);
    let end = first_from(t, '}', start);
    if !(start < from || end < start || start >= t.len() || end >= t.len()) {
        let names = names_in(t, from);
        let rest = names_in(t, end + 1);
        assert(names[0] == t.subrange(start + 1, end));
        assert forall|n: int| 0 <= n < rest.len() implies arg_of(args, #[trigger] rest[n]) is None by {
            assert(names[n + 1] == rest[n]);
        }
        lemma_plain_rest(t, args, end + 1);
        assert(t.subrange(from, start) + t.subrange(start, end + 1) + t.subrange(
            end + 1,
            t.len() as int,
        ) =~= t.subrange(from, t.len() as int));
    }
}

/// Whatever an argument holds, braces too, is inserted as it is.
pub proof fn law_inserted_text_is_opaque(name: Seq<char>, args: Seq<Arg>, value: Seq<char>)
    requires
        !name.contains('}'),
        arg_of(args, name) == Some(value),
    ensures
        filled(seq!['{'] + name + seq!['}'], args, 0) == value,
{
    let t = seq!['{'] + name + seq!['}'];
    let last = t.len() - 1;
    lemma_first_from(t, '}', 0);
    assert(t[0] == '{');
    assert(first_from(t, '{', 0) == 0);
    let end = first_from(t, '}', 0);
    assert(t[last] == '}');
    if end < last {
        assert(end >= 1);
        assert(name[end - 1] == '}');
        assert(name.contains('}'));
    }
    assert(end == last);
    assert(t.subrange(1, end) =~= name);
    assert(t.subrange(0, 0) =~= Seq::<char>::empty());
    lemma_filled_end(t, args);
    assert(Seq::<char>::empty() + value + Seq::<char>::empty() =~= value);
}

proof fn lemma_filled_end(t: Seq<char>, args: Seq<Arg>)
    ensures
        filled(t, args, t.len() as int) == Seq::<char>::empty(),
{
    lemma_first_from(t, '{', t.len() as int);
    assert(t.subrange(t.len() as int, t.len() as int) =~= Seq::<char>::empty());
}

fn find_arg<'a>(args: &'a Vec<Arg>, name: &str) -> (value: Option<&'a str>)
    ensures
        match value {
            Some(v) => arg_of(args@, name@) == Some(v@),
            None => arg_of(args@, name@) is None,
        },
{
    let mut n: usize = 0;
    assert(args@.skip(0) =~= args@);
    while n < args.len()
        invariant
            n <= args@.len(),
            arg_of(args@, name@) == arg_of(args@.skip(n as int), name@),
        decreases args@.len() - n,
    {
        assert(args@.skip(n as int).drop_first() =~= args@.skip(n + 1));
        assert(args@.skip(n as int)[0] == args@[n as int]);
        if same_text(args[n].0.as_str(), name) {
            return Some(args[n].1.as_str());
        }
        n += 1;
    }
    assert(args@.skip(n as int).len() == 0);
    None
}

/// A template with its placeholders replaced.
pub fn fill(template: &str, args: &Vec<Arg>) -> (text: String)
    ensures
        text@ == filled(template@, args@, 0),
{
    let t = to_chars(template);
    let mut text = String::new();
    let mut from: usize = 0;
    let mut done = false;
    assert(text@ + filled(t@, args@, 0) =~= filled(t@, args@, 0));
    while !done
        invariant
            t@ == template@,
            from <= t@.len(),
            !done ==> filled(template@, args@, 0) == text@ + filled(t@, args@, from as int),
            done ==> filled(template@, args@, 0) == text@,
        decreases t@.len() - from, if done { 0int } else { 1int },
    {
        let start: usize = find_from(&t, '{', from);
        let end: usize = find_from(&t, '}', start);
        if start == t.len() || end == t.len() {
            let rest = from_chars(&t, from, t.len());
            text.append(rest.as_str());
            done = true;
        } else {
            let ghost before = text@;
            let head = from_chars(&t, from, start);
            assert(t@[start as int] == '{' && t@[end as int] == '}');
            let name = from_chars(&t, start + 1, end);
            text.append(head.as_str());
            match find_arg(args, name.as_str()) {
                Some(value) => {
                    text.append(value);
                    assert(text@ + filled(t@, args@, end + 1) =~= before + (t@.subrange(
                        from as int,
                        start as int,
                    ) + value@ + filled(t@, args@, end + 1)));
                },
                None => {
                    let whole = from_chars(&t, start, end + 1);
                    text.append(whole.as_str());
                    assert(text@ + filled(t@, args@, end + 1) =~= before + (t@.subrange(
                        from as int,
                        start as int,
                    ) + whole@ + filled(t@, args@, end + 1)));
                },
            }
            from = end + 1;
        }
    }
    text
}

/// What `char::to_uppercase` makes of a character.
pub uninterp spec fn uppercase_of(c: char) -> Seq<char>;

/// Calls `char::to_uppercase` and collects what it gives. The result depends
/// on nothing but the character.
#[verifier::external_body]
fn to_uppercase(c: char) -> (s: String)
    ensures
        s@ == uppercase_of(c),
{
    c.to_uppercase().collect()
}

/// A name in words: spaces for underscores, and the first letter of each word
/// in upper case.
pub open spec fn in_words(name: Seq<char>) -> Seq<char>
    decreases name.len(),
{
    if name.len() == 0 {
        Seq::empty()
    } else {
        let rest = name.drop_last();
        let c = name.last();
        if c == '_' {
            in_words(rest).push(' ')
        } else if rest.len() == 0 || rest.last() == '_' {
            in_words(rest) + uppercase_of(c)
        } else {
            in_words(rest).push(c)
        }
    }
}

/// A name in words.
pub fn words_of(name: &str) -> (text: String)
    ensures
        text@ == in_words(name@),
{
    let chars = to_chars(name);
    let mut text = String::new();
    let mut n: usize = 0;
    assert(in_words(chars@.take(0)) =~= Seq::<char>::empty());
    while n < chars.len()
        invariant
            n <= chars@.len(),
            text@ == in_words(chars@.take(n as int)),
        decreases chars@.len() - n,
    {
        proof {
            let upto = chars@.take(n + 1);
            assert(upto.drop_last() =~= chars@.take(n as int));
            assert(upto.last() == chars@[n as int]);
            if n > 0 {
                assert(upto.drop_last().last() == chars@[n - 1]);
            }
        }
        let c = chars[n];
        if c == '_' {
            text.push(' ');
        } else if n == 0 || chars[n - 1] == '_' {
            let upper = to_uppercase(c);
            text.append(upper.as_str());
        } else {
            text.push(c);
        }
        n += 1;
    }
    assert(chars@.take(n as int) =~= chars@);
    text
}

impl Locales {
    /// The catalog of a language.
    pub open spec fn of(self, language: Language) -> Map<Seq<char>, Seq<char>> {
        match language {
            Language::English => self.english@,
            Language::Japanese => self.japanese@,
        }
    }

    /// The text of a key in a language.
    pub open spec fn text(self, language: Language, key: Seq<char>) -> Seq<char> {
        found(self.of(language), self.english@, key)
    }

    /// The catalog of a language.
    pub fn catalog(&self, language: Language) -> (catalog: &Catalog)
        ensures
            catalog@ == self.of(language),
    {
        match language {
            Language::English => &self.english,
            Language::Japanese => &self.japanese,
        }
    }

    /// The text of a key in a language.
    pub fn tr(&self, language: Language, key: &str) -> (text: String)
        ensures
            text@ == self.text(language, key@),
    {
        lookup(self.catalog(language), &self.english, key).to_owned()
    }

    /// The text of a key in a language, with its placeholders replaced.
    pub fn tr_args(&self, language: Language, key: &str, args: &Vec<Arg>) -> (text: String)
        ensures
            text@ == filled(self.text(language, key@), args@, 0),
    {
        let template = self.tr(language, key);
        fill(template.as_str(), args)
    }

    /// The name of an item in a language; without a translation its own name
    /// in words.
    pub open spec fn item(self, language: Language, name: Seq<char>) -> Seq<char> {
        let key = "item."@ + name;
        if self.text(language, key) != key {
            self.text(language, key)
        } else {
            in_words(name)
        }
    }

    /// The name of an item in a language.
    pub fn item_name(&self, language: Language, name: &str) -> (text: String)
        ensures
            text@ == self.item(language, name@),
    {
        let key = joined("item.", name);
        let translated = self.tr(language, key.as_str());
        if !same_text(translated.as_str(), key.as_str()) {
            return translated;
        }
        words_of(name)
    }
}

/// A text that follows changes of the language.
#[derive(Debug)]
pub struct LocalizedText {
    pub key: String,
    pub args: Vec<Arg>,
}

impl LocalizedText {
    /// A text without placeholders.
    pub fn new(key: String) -> (t: LocalizedText)
        ensures
            t.key == key,
            t.args@ == Seq::<Arg>::empty(),
    {
        LocalizedText { key, args: Vec::new() }
    }

    /// A text with placeholders.
    pub fn with_args(key: String, args: Vec<Arg>) -> (t: LocalizedText)
        ensures
            t == (LocalizedText { key, args }),
    {
        LocalizedText { key, args }
    }

    /// The text in a language.
    pub fn render(&self, locales: &Locales, language: Language) -> (text: String)
        ensures
            text@ == filled(locales.text(language, self.key@), self.args@, 0),
    {
        locales.tr_args(language, self.key.as_str(), &self.args)
    }
}

/// A text comes from the language's own catalog if that has it, else from the
/// English one, and else the key stands for itself. An item without a
/// translation is called by its name in words.
pub proof fn law_translations_fall_back(locales: Locales, language: Language, key: Seq<char>)
    ensures
        ({
            let own = if language == Language::Japanese {
                locales.japanese@
            } else {
                locales.english@
            };
            &&& own.contains_key(key) ==> locales.text(language, key) == own[key]
            &&& !own.contains_key(key) && locales.english@.contains_key(key) ==> locales.text(
                language,
                key,
            ) == locales.english@[key]
            &&& !own.contains_key(key) && !locales.english@.contains_key(key) ==> locales.text(
                language,
                key,
            ) == key
            &&& locales.text(language, "item."@ + key) != "item."@ + key ==> locales.item(
                language,
                key,
            ) == locales.text(language, "item."@ + key)
            &&& locales.text(language, "item."@ + key) == "item."@ + key ==> locales.item(
                language,
                key,
            ) == in_words(key)
        }),
{
}

/// The first argument with a name counts.
pub proof fn law_first_argument_counts(args: Seq<Arg>, name: Seq<char>, n: int)
    ensures
        0 <= n < args.len() && args[n].0@ == name && (forall|k: int|
            0 <= k < n ==> (#[trigger] args[k]).0@ != name) ==> arg_of(args, name) == Some(
            args[n].1@,
        ),
        (forall|k: int| 0 <= k < args.len() ==> (#[trigger] args[k]).0@ != name) ==> arg_of(
            args,
            name,
        ) is None,
    decreases args.len(),
{
    if args.len() > 0 {
        let rest = args.drop_first();
        assert forall|k: int| 0 <= k < rest.len() implies #[trigger] rest[k] == args[k + 1] by {}
        law_first_argument_counts(rest, name, n - 1);
        if 0 < n < args.len() && args[n].0@ == name && (forall|k: int|
            0 <= k < n ==> (#[trigger] args[k]).0@ != name) {
            assert(args[0].0@ != name);
            assert(rest[n - 1] == args[n]);
        }
        if forall|k: int| 0 <= k < args.len() ==> (#[trigger] args[k]).0@ != name {
            assert(args[0].0@ != name);
        }
    }
}

/// The first placeholder of a template is replaced by its argument, or stays
/// where it has none; what stands before it stays, and the same goes for what
/// stands behind it.
pub proof fn law_placeholders_are_replaced(
    t: Seq<char>,
    args: Seq<Arg>,
    from: int,
    start: int,
    end: int,
)
    requires
        0 <= from <= start < end < t.len(),
        t[start] == '{',
        t[end] == '}',
        forall|k: int| from <= k < start ==> #[trigger] t[k] != '{',
        forall|k: int| start <= k < end ==> #[trigger] t[k] != '}',
    ensures
        filled(t, args, from) == t.subrange(from, start) + (match arg_of(
            args,
            t.subrange(start + 1, end),
        ) {
            Some(value) => value,
            None => t.subrange(start, end + 1),
        }) + filled(t, args, end + 1),
{
    lemma_first_from(t, '{', from);
    let s = first_from(t, '{', from);
    assert(s == start);
    lemma_first_from(t, '}', start);
    let e = first_from(t, '}', start);
    assert(e == end);
}

/// Names are put into words one by one, with a space for each underscore: two
/// names joined by one become the words of the first, a space, and the words
/// of the second.
pub proof fn law_names_become_words(a: Seq<char>, b: Seq<char>)
    ensures
        in_words(a + seq!['_'] + b) == in_words(a) + seq![' '] + in_words(b),
    decreases b.len(),
{
    let whole = a + seq!['_'] + b;
    if b.len() == 0 {
        assert(whole =~= a.push('_'));
        assert(whole.drop_last() =~= a);
        assert(in_words(whole) =~= in_words(a) + seq![' '] + in_words(b));
    } else {
        let rest = b.drop_last();
        let shorter = a + seq!['_'] + rest;
        law_names_become_words(a, rest);
        assert(whole.drop_last() =~= shorter);
        assert(whole.last() == b.last());
        if rest.len() == 0 {
            assert(shorter.last() == '_');
        } else {
            assert(shorter.last() == rest.last());
        }
        assert(in_words(whole) =~= in_words(a) + seq![' '] + in_words(b));
    }
}

/// A single word keeps its letters behind the first, which becomes a capital.
pub proof fn law_words_are_capitalized(word: Seq<char>)
    requires
        word.len() > 0,
        !word.contains('_'),
    ensures
        in_words(word) == uppercase_of(word[0]) + word.skip(1),
    decreases word.len(),
{
    let rest = word.drop_last();
    assert(word[word.len() - 1] == word.last());
    assert(word.last() != '_');
    if rest.len() == 0 {
        assert(in_words(rest) == Seq::<char>::empty());
        assert(in_words(word) =~= uppercase_of(word[0]) + word.skip(1));
    } else {
        assert forall|k: int| 0 <= k < rest.len() implies rest[k] != '_' by {
            assert(word[k] == rest[k]);
            assert(word.contains(word[k]));
        }
        law_words_are_capitalized(rest);
        assert(rest.last() == rest[rest.len() - 1]);
        assert(in_words(word) =~= uppercase_of(word[0]) + word.skip(1));
    }
}

} // verus!
