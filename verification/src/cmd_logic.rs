use vstd::prelude::*;

use std::collections::BTreeMap;

use crate::db::Db;
use crate::str_map::StrMap;
use crate::text::{split_whitespace, split_words, to_lowercase, unicode_lowercase};

verus! {

/// How many arguments a keyword takes.
#[derive(PartialEq, Eq, Structural, Debug, Clone, Copy)]
pub enum KeywordNumArgs {
    Empty,
    Single,
    Double,
    Tripe,
    /// at least one argument
    Variable,
}

/// The validation run on a keyword's arguments.
#[derive(PartialEq, Eq, Structural, Debug, Clone, Copy)]
pub enum KeywordCallback {
    /// `CommandInterpreter::set_columns`
    SetColumns,
}

/// What is known of a keyword: how many arguments it takes, the arguments
/// with a special meaning (such as `*`), and the validation run on its arguments.
#[derive(Debug, Clone)]
pub struct KeywordAttrs {
    pub num_args: KeywordNumArgs,
    pub special_args: Option<Vec<String>>,
    pub callback_func: Option<KeywordCallback>,
}

/// Keyword attributes as plain values.
pub struct AttrsView {
    pub num_args: KeywordNumArgs,
    pub special_args: Option<Seq<Seq<char>>>,
    pub callback_func: Option<KeywordCallback>,
}

impl View for KeywordAttrs {
    type V = AttrsView;

    open spec fn view(&self) -> AttrsView {
        AttrsView {
            num_args: self.num_args,
            special_args: match self.special_args {
                Some(v) => Some(v.deep_view()),
                None => None,
            },
            callback_func: self.callback_func,
        }
    }
}

/// A word of a command: the word, whether it is a keyword, and the keyword's
/// attributes (those of no keyword for other words).
#[derive(Debug, Clone)]
pub struct CommandWordDat {
    pub name: String,
    pub keyword: bool,
    pub attrs: KeywordAttrs,
}

/// A word of a command as plain values.
pub struct WordView {
    pub name: Seq<char>,
    pub keyword: bool,
    pub attrs: AttrsView,
}

impl View for CommandWordDat {
    type V = WordView;

    open spec fn view(&self) -> WordView {
        WordView { name: self.name@, keyword: self.keyword, attrs: self.attrs@ }
    }
}

/// The attributes given to a word that is not a keyword.
pub open spec fn plain_word_attrs() -> AttrsView {
    AttrsView { num_args: KeywordNumArgs::Empty, special_args: None, callback_func: None }
}

/// The keywords this interpreter knows.
pub open spec fn keyword_table() -> Map<Seq<char>, AttrsView> {
    Map::empty().insert(
        "select"@,
        AttrsView {
            num_args: KeywordNumArgs::Variable,
            special_args: Some(seq!["*"@]),
            callback_func: Some(KeywordCallback::SetColumns),
        },
    ).insert(
        "from"@,
        AttrsView {
            num_args: KeywordNumArgs::Single,
            special_args: None,
            callback_func: Some(KeywordCallback::SetColumns),
        },
    )
}

/// Whether `count` arguments are acceptable for a keyword of kind `kind`.
pub open spec fn arg_count_ok(kind: KeywordNumArgs, count: int) -> bool {
    match kind {
        KeywordNumArgs::Empty => count == 0,
        KeywordNumArgs::Single => count == 1,
        KeywordNumArgs::Double => count == 2,
        KeywordNumArgs::Tripe => count == 3,
        KeywordNumArgs::Variable => count >= 1,
    }
}

/// The word of a command that `word` becomes, given the keywords known.
pub open spec fn classify_word(keywords: Map<Seq<char>, AttrsView>, word: Seq<char>) -> WordView {
    let lower = unicode_lowercase(word);
    if keywords.contains_key(lower) {
        WordView { name: word, keyword: true, attrs: keywords[lower] }
    } else {
        WordView { name: word, keyword: false, attrs: plain_word_attrs() }
    }
}

/// The words of `command`, classified.
pub open spec fn command_words(keywords: Map<Seq<char>, AttrsView>, command: Seq<char>) -> Seq<
    WordView,
> {
    split_words(command).map_values(|w: Seq<char>| classify_word(keywords, w))
}

/// The position of the first keyword at or after `j` (the number of words if
/// there is none).
pub open spec fn next_keyword_from(ws: Seq<WordView>, j: int) -> int
    decreases ws.len() - j,
{
    if j >= ws.len() {
        ws.len() as int
    } else if ws[j].keyword {
        j
    } else {
        next_keyword_from(ws, j + 1)
    }
}

/// Every keyword of the command is followed, up to the next keyword, by a
/// number of arguments that it takes.
pub open spec fn arg_counts_ok(ws: Seq<WordView>) -> bool {
    forall|k: int|
        0 <= k < ws.len() && #[trigger] ws[k].keyword ==> arg_count_ok(
            ws[k].attrs.num_args,
            next_keyword_from(ws, k + 1) - k - 1,
        )
}

/// A copy of a list of strings.
fn copy_strings(v: &Vec<String>) -> (r: Vec<String>)
    ensures
        r.deep_view() == v.deep_view(),
{
    let mut r: Vec<String> = Vec::new();
    let mut i: usize = 0;
    while i < v.len()
        invariant
            i <= v@.len(),
            r@.len() == i,
            forall|q: int| 0 <= q < i ==> #[trigger] r@[q]@ == v@[q]@,
        decreases v@.len() - i,
    {
        r.push(v[i].clone());
        i = i + 1;
    }
    proof {
        assert(r.deep_view() =~= v.deep_view());
    }
    r
}

/// A copy of keyword attributes.
fn copy_attrs(a: &KeywordAttrs) -> (r: KeywordAttrs)
    ensures
        r@ == a@,
{
    let special_args = match &a.special_args {
        Some(v) => Some(copy_strings(v)),
        None => None,
    };
    KeywordAttrs { num_args: a.num_args, special_args, callback_func: a.callback_func }
}

/// The attributes given to a word that is not a keyword.
fn plain_attrs() -> (a: KeywordAttrs)
    ensures
        a@ == plain_word_attrs(),
{
    KeywordAttrs { num_args: KeywordNumArgs::Empty, special_args: None, callback_func: None }
}

/// The interpreter: the keywords it knows, the columns of the current query,
/// the words of the current command by position, and the current database.
pub struct CommandInterpreter {
    pub keywords: StrMap<KeywordAttrs>,
    pub current_columns: Vec<String>,
    pub current_btreemap: BTreeMap<usize, CommandWordDat>,
    pub current_database: Option<Db>,
}

impl CommandInterpreter {
    /// The keywords known, as plain values.
    pub open spec fn keywords_view(&self) -> Map<Seq<char>, AttrsView> {
        self.keywords@.map_values(|a: KeywordAttrs| a@)
    }

    /// The current command's words are numbered `0` to `n - 1`.
    pub open spec fn well_indexed(&self) -> bool {
        forall|k: usize|
            #[trigger] self.current_btreemap@.contains_key(k) <==> (k as int) < self.current_btreemap@.len()
    }

    /// The words of the current command, in order.
    pub open spec fn words(&self) -> Seq<WordView> {
        Seq::new(self.current_btreemap@.len(), |i: int| self.current_btreemap@[i as usize]@)
    }

    /// An interpreter that knows the keywords and holds the words of
    /// `command`; no columns and no current database.
    pub fn new(command: String) -> (interp: Self)
        ensures
            interp.keywords_view() == keyword_table(),
            interp.current_columns@.len() == 0,
            interp.current_database is None,
            interp.well_indexed(),
            interp.words() == command_words(keyword_table(), command@),
    {
        let mut interp = CommandInterpreter {
            keywords: Self::create_keywords_map(),
            current_columns: Vec::new(),
            current_btreemap: BTreeMap::new(),
            current_database: None,
        };
        interp.set_btreemap(command);
        interp
    }

    /// Splits `command` into words and records each, by position, with
    /// whether it is a keyword.
    pub fn set_btreemap(&mut self, command: String)
        ensures
            final(self).keywords == old(self).keywords,
            final(self).current_columns == old(self).current_columns,
            final(self).current_database == old(self).current_database,
            final(self).well_indexed(),
            final(self).words() == command_words(old(self).keywords_view(), command@),
    {
        let words = split_whitespace(command.as_str());
        let ghost expected = command_words(self.keywords_view(), command@);
        let mut command_btreemap: BTreeMap<usize, CommandWordDat> = BTreeMap::new();
        let n = words.len();
        let mut index: usize = 0;
        while index < n
            invariant
                n == words@.len(),
                n == split_words(command@).len(),
                forall|i: int| 0 <= i < n ==> #[trigger] words@[i]@ == split_words(command@)[i],
                expected == command_words(self.keywords_view(), command@),
                index <= n,
                forall|k: usize|
                    #[trigger] command_btreemap@.contains_key(k) <==> (k as int) < index,
                forall|k: usize|
                    (k as int) < index ==> #[trigger] command_btreemap@[k]@ == expected[k as int],
            decreases n - index,
        {
            let word = &words[index];
            if self.is_keyword(word.as_str()) {
                let attrs = self.get_keyword_attrs(word.clone());
                command_btreemap.insert(
                    index,
                    CommandWordDat { name: word.clone(), keyword: true, attrs },
                );
            } else {
                command_btreemap.insert(
                    index,
                    CommandWordDat { name: word.clone(), keyword: false, attrs: plain_attrs() },
                );
            }
            index = index + 1;
        }
        proof {
            assert(command_btreemap@.dom() =~= Set::new(|k: usize| (k as int) < n));
            crate::cmd_interpreter::lemma_count_indices(n);
        }
        self.current_btreemap = command_btreemap;
        proof {
            assert(self.words() =~= expected);
        }
    }

    /// Whether the word at position `j` is a keyword.
    fn keyword_at(&self, j: usize) -> (b: bool)
        requires
            self.well_indexed(),
            j < self.current_btreemap@.len(),
        ensures
            b == self.words()[j as int].keyword,
    {
        self.current_btreemap.get(&j).unwrap().keyword
    }

    /// The position of the first keyword after position `k`.
    fn next_keyword(&self, k: usize) -> (j: usize)
        requires
            self.well_indexed(),
            k < self.current_btreemap@.len(),
        ensures
            j == next_keyword_from(self.words(), k + 1),
            k < j <= self.current_btreemap@.len(),
    {
        let ghost ws = self.words();
        let n = self.current_btreemap.len();
        let mut j = k + 1;
        while j < n && !self.keyword_at(j)
            invariant
                n == ws.len(),
                ws == self.words(),
                self.well_indexed(),
                k < j <= n,
                next_keyword_from(ws, k + 1) == next_keyword_from(ws, j as int),
            decreases n - j,
        {
            j = j + 1;
        }
        j
    }

    /// The words strictly between positions `k` and `j`.
    fn words_between(&self, k: usize, j: usize) -> (args: Vec<String>)
        requires
            self.well_indexed(),
            k < j <= self.current_btreemap@.len(),
        ensures
            args@.len() == j - k - 1,
            forall|q: int| 0 <= q < args@.len() ==> #[trigger] args@[q]@ == self.words()[k + 1 + q].name,
    {
        let ghost ws = self.words();
        let mut args: Vec<String> = Vec::new();
        let mut i = k + 1;
        while i < j
            invariant
                ws == self.words(),
                self.well_indexed(),
                k < i <= j,
                j <= ws.len(),
                args@.len() == i - k - 1,
                forall|q: int| 0 <= q < args@.len() ==> #[trigger] args@[q]@ == ws[k + 1 + q].name,
            decreases j - i,
        {
            args.push(self.current_btreemap.get(&i).unwrap().name.clone());
            i = i + 1;
        }
        args
    }

    /// Checks the current command: every keyword must be followed, up to the
    /// next keyword, by a number of arguments that it takes; the validation of
    /// each keyword is run on its arguments. Nothing is changed.
    pub fn interpret_command(&self) -> (ok: bool)
        requires
            self.well_indexed(),
        ensures
            ok == arg_counts_ok(self.words()),
    {
        let ghost ws = self.words();
        let n = self.current_btreemap.len();
        let mut key: usize = 0;
        while key < n
            invariant
                ws == self.words(),
                self.well_indexed(),
                n == ws.len(),
                key <= n,
                forall|k: int|
                    0 <= k < key && #[trigger] ws[k].keyword ==> arg_count_ok(
                        ws[k].attrs.num_args,
                        next_keyword_from(ws, k + 1) - k - 1,
                    ),
            decreases n - key,
        {
            if self.keyword_at(key) {
                let num_args = self.current_btreemap.get(&key).unwrap().attrs.num_args;
                let callback = self.current_btreemap.get(&key).unwrap().attrs.callback_func;
                if key == n && num_args != KeywordNumArgs::Empty {
                    return false;
                }
                let index_next_keyword = self.next_keyword(key);
                if !Self::validate_number_of_args(num_args, index_next_keyword - key - 1) {
                    return false;
                }
                let args = self.words_between(key, index_next_keyword);
                match callback {
                    Some(KeywordCallback::SetColumns) => {
                        Self::set_columns(args);
                    },
                    None => {},
                }
            }
            key = key + 1;
        }
        true
    }

    /// Whether `arg_count` arguments are acceptable for a keyword of kind
    /// `arg_type`.
    pub fn validate_number_of_args(arg_type: KeywordNumArgs, arg_count: usize) -> (ok: bool)
        ensures
            ok == arg_count_ok(arg_type, arg_count as int),
    {
        match arg_type {
            KeywordNumArgs::Empty => arg_count == 0,
            KeywordNumArgs::Single => arg_count == 1,
            KeywordNumArgs::Double => arg_count == 2,
            KeywordNumArgs::Tripe => arg_count == 3,
            KeywordNumArgs::Variable => arg_count >= 1,
        }
    }

    /// The keywords this interpreter knows.
    pub fn create_keywords_map() -> (keywords: StrMap<KeywordAttrs>)
        ensures
            keywords@.map_values(|a: KeywordAttrs| a@) == keyword_table(),
    {
        let mut keywords = StrMap::new();
        let mut select_special: Vec<String> = Vec::new();
        select_special.push("*".to_owned());
        let select = KeywordAttrs {
            num_args: KeywordNumArgs::Variable,
            special_args: Some(select_special),
            callback_func: Some(KeywordCallback::SetColumns),
        };
        proof {
            assert(select@.special_args.unwrap() =~= seq!["*"@]);
        }
        keywords.insert("select".to_owned(), select);
        keywords.insert(
            "from".to_owned(),
            KeywordAttrs {
                num_args: KeywordNumArgs::Single,
                special_args: None,
                callback_func: Some(KeywordCallback::SetColumns),
            },
        );
        proof {
            assert(keywords@.map_values(|a: KeywordAttrs| a@) =~= keyword_table());
        }
        keywords
    }

    /// The validation run on the arguments of `select` and `from`: accepts them.
    pub fn set_columns(name: Vec<String>) -> (ok: bool)
        ensures
            ok,
    {
        true
    }

    /// The attributes of a keyword, looked up in lowercase.
    pub fn get_keyword_attrs(&self, keyword: String) -> (attrs: KeywordAttrs)
        requires
            self.keywords@.contains_key(unicode_lowercase(keyword@)),
        ensures
            attrs@ == self.keywords_view()[unicode_lowercase(keyword@)],
    {
        let lower = to_lowercase(keyword.as_str());
        copy_attrs(self.keywords.get(&lower).unwrap())
    }

    /// Whether `word`, lowercased, is a keyword.
    pub fn is_keyword(&self, word: &str) -> (b: bool)
        ensures
            b == self.keywords@.contains_key(unicode_lowercase(word@)),
    {
        let lower = to_lowercase(word);
        self.keywords.contains_key(&lower)
    }
}

} // verus!
