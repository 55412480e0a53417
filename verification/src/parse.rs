//! The macro's inputs as plain values: its arguments, the struct it is
//! attached to, the HTTP methods that a `route.rs` file declares, and the
//! ordered list of route files.

use vstd::prelude::*;

use crate::order::{
    lemma_path_lt_asymmetric, lemma_path_lt_total, lemma_path_lt_transitive, path_less, path_lt,
};
use crate::text::{push_char, same_text};

verus! {

// ---------------------------------------------------------------------------
// Arguments and the router struct
// ---------------------------------------------------------------------------

/// The arguments of `#[folder_router("path", StateType)]`.
pub struct FolderRouterArgs {
    /// The route directory, relative to the manifest directory.
    pub path: String,
    /// The name of the application state type.
    pub state_type: String,
}

impl FolderRouterArgs {
    /// Builds the arguments from the path literal's value and the state
    /// type's name.
    pub fn new(path: String, state_type: String) -> (res: Self)
        ensures
            res.path@ == path@,
            res.state_type@ == state_type@,
    {
        FolderRouterArgs { path, state_type }
    }
}

/// The struct that the attribute is attached to, known by its name.
pub struct FolderRouterItem {
    ident: String,
}

/// Whether a character is alphanumeric in the sense of `char::is_alphanumeric`.
pub uninterp spec fn char_is_alphanumeric(c: char) -> bool;

/// `char::is_alphanumeric`: the ASCII letters and digits among ASCII
/// characters, and the Unicode property `char_is_alphanumeric` beyond.
pub open spec fn alphanumeric(c: char) -> bool {
    if c <= '\x7f' {
        is_ascii_alphanumeric(c)
    } else {
        char_is_alphanumeric(c)
    }
}

/// Tests a character with `char::is_alphanumeric`.
///
/// Trusted: the result is `alphanumeric(c)`: the Unicode
/// `Alphabetic`/`Numeric` property that the standard library implements,
/// which among ASCII characters holds of the letters and digits alone.
#[verifier::external_body]
fn is_alphanumeric(c: char) -> (res: bool)
    ensures
        res == alphanumeric(c),
        c > '\x7f' ==> res == char_is_alphanumeric(c),
{
    c.is_alphanumeric()
}

/// ASCII letters and digits.
pub open spec fn is_ascii_alphanumeric(c: char) -> bool {
    ('a' <= c && c <= 'z') || ('A' <= c && c <= 'Z') || ('0' <= c && c <= '9')
}

/// `char::to_ascii_lowercase`: ASCII capitals become small letters, every
/// other character stays.
pub open spec fn ascii_lowercase(c: char) -> char {
    if 'A' <= c && c <= 'Z' {
        ((c as u32) + 32) as char
    } else {
        c
    }
}

/// The character that stands for `c` in a module namespace.
pub open spec fn namespace_char(c: char) -> char {
    if alphanumeric(c) {
        ascii_lowercase(c)
    } else {
        '_'
    }
}

/// The prefix of every module namespace.
pub open spec fn namespace_prefix() -> Seq<char> {
    seq!['_', '_', 'f', 'o', 'l', 'd', 'e', 'r', '_', 'r', 'o', 'u', 't', 'e', 'r', '_', '_']
}

/// The module namespace of a router struct named `ident`.
pub open spec fn spec_module_namespace(ident: Seq<char>) -> Seq<char> {
    namespace_prefix() + ident.map_values(|c: char| namespace_char(c))
}

/// Lower-cases one ASCII capital.
fn to_ascii_lowercase(c: char) -> (res: char)
    ensures
        res == ascii_lowercase(c),
{
    if 'A' <= c && c <= 'Z' {
        let lower: u8 = (c as u8) + 32;
        lower as char
    } else {
        c
    }
}

impl FolderRouterItem {
    /// The struct named `ident`.
    pub fn new(ident: String) -> (res: Self)
        ensures
            res.ident_view() == ident@,
    {
        FolderRouterItem { ident }
    }

    /// The struct's name.
    pub closed spec fn ident_view(&self) -> Seq<char> {
        self.ident@
    }

    /// The name of the module that holds the route modules of this router:
    /// `__folder_router__` followed by the struct's name, in which each
    /// character that is not alphanumeric becomes `_` and ASCII capitals
    /// become small letters.
    pub fn module_namespace(&self) -> (res: String)
        ensures
            res@ == spec_module_namespace(self.ident_view()),
    {
        let name = self.ident.as_str();
        let n = name.unicode_len();
        let mut res = String::new();
        res.append("__folder_router__");
        proof {
            reveal_strlit("__folder_router__");
        }
        assert(res@ == namespace_prefix());
        let mut i: usize = 0;
        while i < n
            invariant
                n == name@.len(),
                name@ == self.ident_view(),
                i <= n,
                res@ == namespace_prefix() + name@.take(i as int).map_values(
                    |c: char| namespace_char(c),
                ),
            decreases n - i,
        {
            let c = name.get_char(i);
            let mapped = if is_alphanumeric(c) {
                to_ascii_lowercase(c)
            } else {
                '_'
            };
            push_char(&mut res, mapped);
            assert(name@.take(i + 1).map_values(|c: char| namespace_char(c)) =~= name@.take(
                i as int,
            ).map_values(|c: char| namespace_char(c)).push(namespace_char(c)));
            i += 1;
        }
        assert(name@.take(n as int) == name@);
        res
    }

    /// The struct's name.
    pub fn struct_name(&self) -> (res: String)
        ensures
            res@ == self.ident_view(),
    {
        self.ident.clone()
    }
}

// ---------------------------------------------------------------------------
// HTTP methods of a route file
// ---------------------------------------------------------------------------

/// A top-level item of a Rust source file, as far as route handlers care.
#[derive(Debug, PartialEq, Eq)]
pub enum TopItem {
    /// A function item, with its name, whether it is `pub` and whether it is
    /// `async`.
    Function { name: String, is_public: bool, is_async: bool },
    /// Any other item.
    Other,
}

/// The model of a [`TopItem`].
pub enum ItemModel {
    Function { name: Seq<char>, is_public: bool, is_async: bool },
    Other,
}

impl View for TopItem {
    type V = ItemModel;

    open spec fn view(&self) -> ItemModel {
        match self {
            TopItem::Function { name, is_public, is_async } => ItemModel::Function {
                name: name@,
                is_public: *is_public,
                is_async: *is_async,
            },
            TopItem::Other => ItemModel::Other,
        }
    }
}

/// Parses a Rust source file with `syn::parse_file` and lists its top-level
/// items: each item of the parsed file once, in order, as
/// `TopItem::Function` for a `syn::Item::Fn` (its identifier; `is_public`
/// exactly when its visibility is `pub`; `is_async` exactly when it has the
/// `async` keyword; nothing of its parameters, return type or body) or
/// `TopItem::Other` for any other item; `None` where syn reports an error.
///
/// Trusted, with no contract: the outcome is not a function of the text
/// alone. syn lexes through `proc_macro2`, which uses the compiler's lexer
/// inside a procedural macro (normalizing identifiers to NFC) and its own
/// lexer elsewhere, and the mode can be switched at run time; so which
/// texts parse, and with which names, is left unsaid. Callers relate their
/// results to the outcome of their own call (see [`is_parse_outcome`]).
#[verifier::external_body]
fn parse_top_level_items(source: &str) -> (res: Option<Vec<TopItem>>) {
    let file = syn::parse_file(source).ok()?;
    Some(file.items.iter().map(|item| match item {
        syn::Item::Fn(f) => TopItem::Function {
            name: f.sig.ident.to_string(),
            is_public: matches!(f.vis, syn::Visibility::Public(_)),
            is_async: f.sig.asyncness.is_some(),
        },
        _ => TopItem::Other,
    }).collect())
}

/// `outcome` is what a call of the parser on `text` returned: the relation
/// that a call through the function value establishes. Two calls on one
/// text may return different outcomes.
pub closed spec fn is_parse_outcome(text: &str, outcome: Option<Vec<TopItem>>) -> bool {
    call_ensures(parse_top_level_items, (text,), outcome)
}

/// The models of a list of items.
pub open spec fn item_models(items: Seq<TopItem>) -> Seq<ItemModel> {
    items.map_values(|i: TopItem| i@)
}

/// The registered methods for a parse outcome: none where the text did not
/// parse, else those declared by its items.
pub open spec fn outcome_methods(outcome: Option<Vec<TopItem>>) -> Seq<Seq<char>> {
    match outcome {
        None => Seq::empty(),
        Some(items) => spec_methods_in_items(item_models(items@)),
    }
}

/// The HTTP methods that a route file may define handlers for, in the order
/// in which they are registered: `any` and the methods of RFC 9110.
pub open spec fn allowed_methods() -> Seq<Seq<char>> {
    seq![
        "any"@,
        "get"@,
        "post"@,
        "put"@,
        "delete"@,
        "patch"@,
        "head"@,
        "options"@,
        "trace"@,
        "connect"@,
    ]
}

/// The number of allowed methods.
pub const METHOD_COUNT: usize = 10;

/// The `k`-th allowed method.
fn allowed_method(k: usize) -> (res: &'static str)
    requires
        k < METHOD_COUNT,
    ensures
        res@ == allowed_methods()[k as int],
{
    match k {
        0 => "any",
        1 => "get",
        2 => "post",
        3 => "put",
        4 => "delete",
        5 => "patch",
        6 => "head",
        7 => "options",
        8 => "trace",
        _ => "connect",
    }
}

/// The items declare a handler for `method`: a `pub async fn` of that name.
pub open spec fn declares_handler(items: Seq<ItemModel>, method: Seq<char>) -> bool {
    exists|i: int|
        0 <= i < items.len() && #[trigger] items[i] == (ItemModel::Function {
            name: method,
            is_public: true,
            is_async: true,
        })
}

/// The methods among `methods` for which the items declare a handler, in
/// the order of `methods`.
pub open spec fn handled_methods(methods: Seq<Seq<char>>, items: Seq<ItemModel>) -> Seq<Seq<char>>
    decreases methods.len(),
{
    if methods.len() == 0 {
        Seq::empty()
    } else {
        let rest = handled_methods(methods.drop_last(), items);
        if declares_handler(items, methods.last()) {
            rest.push(methods.last())
        } else {
            rest
        }
    }
}

/// The registered methods of a file with these items.
pub open spec fn spec_methods_in_items(items: Seq<ItemModel>) -> Seq<Seq<char>> {
    handled_methods(allowed_methods(), items)
}

/// `idx` shows `ms` to be a subsequence of `all`: the `i`-th element of
/// `ms` is the `idx[i]`-th of `all`, at strictly increasing positions.
pub open spec fn subsequence_witness(ms: Seq<Seq<char>>, all: Seq<Seq<char>>, idx: Seq<int>) -> bool {
    &&& idx.len() == ms.len()
    &&& forall|i: int| 0 <= i < ms.len() ==> 0 <= #[trigger] idx[i] < all.len() && ms[i] == all[idx[i]]
    &&& forall|i: int, j: int| 0 <= i < j < ms.len() ==> #[trigger] idx[i] < #[trigger] idx[j]
}

/// A list of methods as a route file can have them: some of the allowed
/// methods, in their fixed order.
pub open spec fn is_method_list(ms: Seq<Seq<char>>) -> bool {
    exists|idx: Seq<int>| subsequence_witness(ms, allowed_methods(), idx)
}

/// Tests whether one of the items is a `pub async fn` named `method`.
fn has_handler(items: &Vec<TopItem>, method: &str) -> (res: bool)
    ensures
        res == declares_handler(items@.map_values(|i: TopItem| i@), method@),
{
    let ghost models = items@.map_values(|i: TopItem| i@);
    let mut j: usize = 0;
    while j < items.len()
        invariant
            models == items@.map_values(|i: TopItem| i@),
            j <= items.len(),
            forall|k: int|
                0 <= k < j ==> models[k] != (ItemModel::Function {
                    name: method@,
                    is_public: true,
                    is_async: true,
                }),
        decreases items.len() - j,
    {
        match &items[j] {
            TopItem::Function { name, is_public, is_async } => {
                if *is_public && *is_async && same_text(name.as_str(), method) {
                    assert(models[j as int] == (ItemModel::Function {
                        name: method@,
                        is_public: true,
                        is_async: true,
                    }));
                    return true;
                }
            },
            TopItem::Other => {},
        }
        j += 1;
    }
    false
}

/// The HTTP methods for which the items declare a `pub async fn` handler,
/// in the fixed order `any, get, post, put, delete, patch, head, options,
/// trace, connect`, each at most once.
pub fn methods_in_items(items: &Vec<TopItem>) -> (res: Vec<&'static str>)
    ensures
        res.deep_view() == spec_methods_in_items(items@.map_values(|i: TopItem| i@)),
        is_method_list(res.deep_view()),
{
    proof {
        lemma_handled_subsequence(allowed_methods(), items@.map_values(|i: TopItem| i@));
    }
    let ghost models = items@.map_values(|i: TopItem| i@);
    let mut res: Vec<&'static str> = Vec::new();
    let mut k: usize = 0;
    while k < METHOD_COUNT
        invariant
            models == items@.map_values(|i: TopItem| i@),
            k <= METHOD_COUNT,
            allowed_methods().len() == METHOD_COUNT,
            res.deep_view() == handled_methods(allowed_methods().take(k as int), models),
        decreases METHOD_COUNT - k,
    {
        let method = allowed_method(k);
        assert(allowed_methods().take(k + 1).drop_last() =~= allowed_methods().take(k as int));
        if has_handler(items, method) {
            let ghost before = res.deep_view();
            res.push(method);
            assert(res.deep_view() =~= before.push(method@));
        }
        k += 1;
    }
    assert(allowed_methods().take(METHOD_COUNT as int) =~= allowed_methods());
    res
}

/// The HTTP methods of a route file, given its text (`None` where the file
/// could not be read): none where it cannot be read or does not parse as
/// Rust, else those of [`methods_in_items`] on the file's top-level items.
///
/// Whatever the parser returns, the result is some of the allowed methods,
/// in their fixed order.
pub fn methods_for_route(source: Option<&str>) -> (res: Vec<&'static str>)
    ensures
        source is None ==> res@.len() == 0,
        is_method_list(res.deep_view()),
        source matches Some(text) ==> exists|outcome: Option<Vec<TopItem>>|
            #[trigger] is_parse_outcome(text, outcome) && res.deep_view() == outcome_methods(
                outcome,
            ),
{
    let parse = parse_top_level_items;
    match source {
        None => {
            let res: Vec<&'static str> = Vec::new();
            proof {
                let idx: Seq<int> = Seq::empty();
                assert(subsequence_witness(res.deep_view(), allowed_methods(), idx));
            }
            res
        },
        Some(text) => {
            let outcome = parse(text);
            assert(is_parse_outcome(text, outcome));
            match outcome {
                None => {
                    let res: Vec<&'static str> = Vec::new();
                    proof {
                        let idx: Seq<int> = Seq::empty();
                        assert(subsequence_witness(res.deep_view(), allowed_methods(), idx));
                        assert(res.deep_view() =~= outcome_methods(outcome));
                    }
                    res
                },
                Some(items) => {
                    let ghost whole = outcome;
                    let res = methods_in_items(&items);
                    assert(res.deep_view() == outcome_methods(whole));
                    res
                },
            }
        },
    }
}

// ---------------------------------------------------------------------------
// Route files
// ---------------------------------------------------------------------------

/// A `route.rs` file found under the route directory: the components of
/// its path relative to the route directory, the file name last, and the
/// HTTP methods that it declares handlers for, in registration order.
///
/// The methods always form a method list (see [`is_method_list`]): some of
/// the allowed methods, each once, in their fixed order.
pub struct RouteFile {
    rel_path: Vec<String>,
    methods: Vec<&'static str>,
}

impl View for RouteFile {
    type V = (Seq<Seq<char>>, Seq<Seq<char>>);

    open spec fn view(&self) -> (Seq<Seq<char>>, Seq<Seq<char>>) {
        (self.path(), self.method_names())
    }
}

impl RouteFile {
    /// The methods form a method list.
    #[verifier::type_invariant]
    spec fn methods_form_list(self) -> bool {
        is_method_list(self.methods.deep_view())
    }

    /// The components of the file's path.
    pub closed spec fn path(&self) -> Seq<Seq<char>> {
        self.rel_path.deep_view()
    }

    /// The methods that the file declares handlers for.
    pub closed spec fn method_names(&self) -> Seq<Seq<char>> {
        self.methods.deep_view()
    }

    /// The route file with these path components whose text is `source`
    /// (`None` where it could not be read): its methods are those of
    /// [`methods_for_route`].
    pub fn from_source(rel_path: Vec<String>, source: Option<&str>) -> (res: Self)
        ensures
            res.path() == rel_path.deep_view(),
            source is None ==> res.method_names().len() == 0,
            is_method_list(res.method_names()),
            source matches Some(text) ==> exists|outcome: Option<Vec<TopItem>>|
                #[trigger] is_parse_outcome(text, outcome) && res.method_names()
                    == outcome_methods(outcome),
    {
        let methods = methods_for_route(source);
        RouteFile { rel_path, methods }
    }

    /// The route file with these path components whose top-level items are
    /// `items`: its methods are those of [`methods_in_items`].
    pub fn from_items(rel_path: Vec<String>, items: &Vec<TopItem>) -> (res: Self)
        ensures
            res.path() == rel_path.deep_view(),
            res.method_names() == spec_methods_in_items(items@.map_values(|i: TopItem| i@)),
            is_method_list(res.method_names()),
    {
        let methods = methods_in_items(items);
        RouteFile { rel_path, methods }
    }

    /// The components of the file's path.
    pub fn rel_path(&self) -> (res: &Vec<String>)
        ensures
            res.deep_view() == self.path(),
    {
        &self.rel_path
    }

    /// The methods that the file declares handlers for: a method list.
    pub fn methods(&self) -> (res: &Vec<&'static str>)
        ensures
            res.deep_view() == self.method_names(),
            is_method_list(self.method_names()),
    {
        proof {
            use_type_invariant(self);
        }
        &self.methods
    }
}

/// Every file's methods form a method list.
pub open spec fn all_method_lists(files: Seq<RouteFile>) -> bool {
    forall|i: int| 0 <= i < files.len() ==> is_method_list(#[trigger] files[i].method_names())
}

/// The models of route files.
pub open spec fn route_views(files: Seq<RouteFile>) -> Seq<(Seq<Seq<char>>, Seq<Seq<char>>)> {
    files.map_values(|f: RouteFile| f@)
}

/// The files are in path order: no file sorts before one in front of it.
pub open spec fn sorted_by_path(files: Seq<RouteFile>) -> bool {
    forall|i: int, j: int|
        0 <= i < j < files.len() ==> !path_lt(
            #[trigger] files[j].path(),
            #[trigger] files[i].path(),
        )
}

/// Sorts route files by their relative paths, compared component by
/// component: the order in which the routes are registered.
pub fn sort_route_files(files: Vec<RouteFile>) -> (res: Vec<RouteFile>)
    ensures
        res@.to_multiset() == files@.to_multiset(),
        sorted_by_path(res@),
        path_keys(files@).no_duplicates() ==> strictly_ascending(res@),
        all_method_lists(res@),
{
    let ghost input = files@;
    let mut rest = files;
    let mut sorted: Vec<RouteFile> = Vec::new();
    proof {
        vstd::seq_lib::to_multiset_len(sorted@);
        assert(sorted@.to_multiset() =~= vstd::multiset::Multiset::empty());
        assert(sorted@.to_multiset().add(rest@.to_multiset()) =~= input.to_multiset());
    }
    while rest.len() > 0
        invariant
            sorted@.to_multiset().add(rest@.to_multiset()) == input.to_multiset(),
            sorted_by_path(sorted@),
            all_method_lists(sorted@),
        decreases rest.len(),
    {
        let ghost before_rest = rest@;
        let file = rest.pop().unwrap();
        proof {
            use_type_invariant(&file);
        }
        assert(before_rest =~= rest@.push(file));
        let ghost key = file.path();
        let mut p = sorted.len();
        while p > 0
            invariant
                p <= sorted.len(),
                key == file.path(),
                sorted_by_path(sorted@),
                forall|k: int|
                    p <= k < sorted.len() ==> path_lt(
                        key,
                        #[trigger] sorted@[k].path(),
                    ),
            ensures
                p <= sorted.len(),
                p == 0 || !path_lt(key, sorted@[p - 1].path()),
                forall|k: int|
                    p <= k < sorted.len() ==> path_lt(
                        key,
                        #[trigger] sorted@[k].path(),
                    ),
            decreases p,
        {
            if path_less(&file.rel_path, &sorted[p - 1].rel_path) {
                p -= 1;
            } else {
                break;
            }
        }
        let ghost before = sorted@;
        proof {
            let s = before.insert(p as int, file);
            assert forall|i: int, j: int|
                0 <= i < j < s.len() implies !path_lt(
                #[trigger] s[j].path(),
                #[trigger] s[i].path(),
            ) by {
                if i < p && j == p {
                    let q = p - 1;
                    let bi = before[i].path();
                    let bq = before[q].path();
                    assert(s[i] == before[i]);
                    assert(s[j] == file);
                    if path_lt(key, bi) {
                        if i < q {
                            assert(!path_lt(bq, bi));
                        }
                        lemma_path_lt_total(bi, bq);
                        if path_lt(bi, bq) {
                            lemma_path_lt_transitive(key, bi, bq);
                        }
                    }
                } else if i == p && j > p {
                    assert(s[i] == file);
                    assert(s[j] == before[j - 1]);
                    lemma_path_lt_asymmetric(key, before[j - 1].path());
                } else if i < p && j > p {
                    assert(s[i] == before[i]);
                    assert(s[j] == before[j - 1]);
                } else if j < p {
                    assert(s[i] == before[i]);
                    assert(s[j] == before[j]);
                } else {
                    assert(s[i] == before[i - 1]);
                    assert(s[j] == before[j - 1]);
                }
            }
            vstd::seq_lib::to_multiset_insert(before, p as int, file);
            vstd::seq_lib::to_multiset_build(rest@, file);
            assert(s.to_multiset().add(rest@.to_multiset()) =~= before.to_multiset().add(
                before_rest.to_multiset(),
            ));
        }
        let ghost inserted = file;
        sorted.insert(p, file);
        assert forall|i: int| 0 <= i < sorted@.len() implies is_method_list(
            #[trigger] sorted@[i].method_names(),
        ) by {
            if i < p {
                assert(sorted@[i] == before[i]);
            } else if i == p {
                assert(sorted@[i] == inserted);
            } else {
                assert(sorted@[i] == before[i - 1]);
            }
        }
    }
    proof {
        vstd::seq_lib::to_multiset_len(rest@);
        assert(rest@.to_multiset() =~= vstd::multiset::Multiset::empty());
        assert(sorted@.to_multiset() =~= input.to_multiset());
        if path_keys(input).no_duplicates() {
            lemma_sort_strict(input, sorted@);
        }
    }
    sorted
}

/// All route files of a router, in path order.
pub struct FolderRouterRoutes {
    routes: Vec<RouteFile>,
}

impl View for FolderRouterRoutes {
    type V = Seq<(Seq<Seq<char>>, Seq<Seq<char>>)>;

    open spec fn view(&self) -> Seq<(Seq<Seq<char>>, Seq<Seq<char>>)> {
        self.files().map_values(|f: RouteFile| f@)
    }
}

/// The error reported when the route directory holds no `route.rs` file.
pub open spec fn no_routes_message(path: Seq<char>) -> Seq<char> {
    "No route.rs files found in the specified directory: '"@ + path
        + "'. Make sure the path is correct and contains route.rs files."@
}

impl FolderRouterRoutes {
    /// The route files, in order.
    pub closed spec fn files(&self) -> Seq<RouteFile> {
        self.routes@
    }

    /// Orders the route files found under the directory `path` by path and,
    /// where there is none, reports an error that names the directory.
    pub fn parse_from_path(errors: &mut Vec<String>, path: &str, found: Vec<RouteFile>) -> (res:
        Self)
        ensures
            res.files().to_multiset() == found@.to_multiset(),
            sorted_by_path(res.files()),
            path_keys(found@).no_duplicates() ==> strictly_ascending(res.files()),
            all_method_lists(res.files()),
            found@.len() == 0 ==> final(errors).deep_view() == old(errors).deep_view().push(
                no_routes_message(path@),
            ),
            found@.len() != 0 ==> final(errors).deep_view() == old(errors).deep_view(),
    {
        let no_files = found.len() == 0;
        let routes = sort_route_files(found);
        if no_files {
            let mut message = String::new();
            message.append("No route.rs files found in the specified directory: '");
            message.append(path);
            message.append("'. Make sure the path is correct and contains route.rs files.");
            let ghost before = errors.deep_view();
            errors.push(message);
            assert(errors.deep_view() =~= before.push(no_routes_message(path@)));
        }
        FolderRouterRoutes { routes }
    }

    /// The route files, in order.
    pub fn routes(&self) -> (res: &Vec<RouteFile>)
        ensures
            res@ == self.files(),
    {
        &self.routes
    }
}

// ---------------------------------------------------------------------------
// Manifest directory
// ---------------------------------------------------------------------------

/// The manifest directory of a crate under test by `macrotest`: a build
/// directory `<crate>/target/tests/axum-folder-router/<42 characters>` is
/// mapped back to `<crate>`.
pub open spec fn test_dir_pattern() -> Seq<char> {
    "^(.+)/target/tests/axum-folder-router/[A-Za-z0-9]{42}$"@
}

/// The fixed middle part of a `macrotest` build directory.
pub open spec fn test_dir_infix() -> Seq<char> {
    "/target/tests/axum-folder-router/"@
}

/// What the test-directory pattern captures in `dir`: the part before
/// `/target/tests/axum-folder-router/` and 42 ASCII letters or digits that
/// end `dir`, where that part is not empty and holds no line feed (`.` does
/// not match one); `None` where the pattern does not match.
pub open spec fn test_dir_capture(dir: Seq<char>) -> Option<Seq<char>> {
    let k = dir.len() - test_dir_infix().len() - 42;
    if k >= 1 && dir.subrange(k, k + test_dir_infix().len()) == test_dir_infix() && (forall|i: int|
        k + test_dir_infix().len() <= i < dir.len() ==> is_ascii_alphanumeric(#[trigger] dir[i]))
        && (forall|i: int| 0 <= i < k ==> #[trigger] dir[i] != '\n') {
        Some(dir.take(k))
    } else {
        None
    }
}

/// Compiles the test-directory pattern with `regex::Regex::new` and returns
/// what its first capture group captures in the first match of
/// `Regex::captures` on `haystack`.
///
/// Trusted: the result is `test_dir_capture(haystack)`, which restates the
/// pattern under the regex crate's default syntax: `^` and `$` anchor the
/// whole text, `.` is any character but a line feed, `[A-Za-z0-9]` is
/// ASCII, and the fixed-length tail fixes where group 1 ends. The body
/// compiles the pattern, matches it and reads group 1.
#[verifier::external_body]
fn first_capture_group(pattern: &str, haystack: &str) -> (res: Option<String>)
    requires
        pattern@ == test_dir_pattern(),
    ensures
        res.deep_view() == test_dir_capture(haystack@),
{
    let re = regex::Regex::new(pattern).ok()?;
    re.captures(haystack).and_then(|c| c.get(1)).map(|m| m.as_str().to_string())
}

/// The directory that the manifest directory `dir` stands for, given what
/// the test-directory pattern captured in it.
pub open spec fn spec_select_manifest_dir(dir: Seq<char>, captured: Option<Seq<char>>) -> Seq<
    char,
> {
    match captured {
        Some(prefix) => prefix,
        None => dir,
    }
}

/// The manifest directory to resolve route paths against, given the value
/// of `CARGO_MANIFEST_DIR` (`None` where it is unset, which stands for
/// `./`).
pub open spec fn spec_manifest_dir(env_value: Option<Seq<char>>) -> Seq<char> {
    let dir = match env_value {
        Some(d) => d,
        None => "./"@,
    };
    spec_select_manifest_dir(dir, test_dir_capture(dir))
}

/// Picks the captured crate directory where the test-directory pattern
/// matched, else the directory itself.
pub fn select_manifest_dir(dir: String, captured: Option<String>) -> (res: String)
    ensures
        res@ == spec_select_manifest_dir(dir@, captured.deep_view()),
{
    match captured {
        Some(prefix) => prefix,
        None => dir,
    }
}

impl FolderRouterArgs {
    /// The manifest directory, given the value of `CARGO_MANIFEST_DIR`:
    /// `./` where it is unset, and the crate directory where it is a
    /// `macrotest` build directory.
    pub fn get_manifest_dir(env_value: Option<String>) -> (res: String)
        ensures
            res@ == spec_manifest_dir(env_value.deep_view()),
    {
        let dir = match env_value {
            Some(d) => d,
            None => String::from_str("./"),
        };
        let captured = first_capture_group(
            "^(.+)/target/tests/axum-folder-router/[A-Za-z0-9]{42}$",
            dir.as_str(),
        );
        select_manifest_dir(dir, captured)
    }
}

// ---------------------------------------------------------------------------
// Laws
// ---------------------------------------------------------------------------

/// The methods of `handled_methods` are those of `methods` with a handler,
/// and none appears twice where none does in `methods`.
proof fn lemma_handled_methods(methods: Seq<Seq<char>>, items: Seq<ItemModel>)
    ensures
        forall|m: Seq<char>|
            #[trigger] handled_methods(methods, items).contains(m) <==> (methods.contains(m)
                && declares_handler(items, m)),
        methods.no_duplicates() ==> handled_methods(methods, items).no_duplicates(),
    decreases methods.len(),
{
    if methods.len() > 0 {
        let init = methods.drop_last();
        let last = methods.last();
        lemma_handled_methods(init, items);
        assert forall|m: Seq<char>| #[trigger] methods.contains(m) <==> (init.contains(m) || m
            == last) by {
            if methods.contains(m) {
                let i = choose|i: int| 0 <= i < methods.len() && methods[i] == m;
                if i < methods.len() - 1 {
                    assert(init[i] == m);
                }
            }
            if init.contains(m) {
                let i = choose|i: int| 0 <= i < init.len() && init[i] == m;
                assert(methods[i] == m);
            }
            if m == last {
                assert(methods[methods.len() - 1] == m);
            }
        }
        let rest = handled_methods(init, items);
        if declares_handler(items, last) {
            assert(handled_methods(methods, items) == rest.push(last));
            assert forall|m: Seq<char>| #[trigger] rest.push(last).contains(m) <==> (rest.contains(
                m,
            ) || m == last) by {
                if rest.push(last).contains(m) {
                    let i = choose|i: int| 0 <= i < rest.len() + 1 && rest.push(last)[i] == m;
                    if i < rest.len() {
                        assert(rest[i] == m);
                    }
                }
                if rest.contains(m) {
                    let i = choose|i: int| 0 <= i < rest.len() && rest[i] == m;
                    assert(rest.push(last)[i] == m);
                }
                if m == last {
                    assert(rest.push(last)[rest.len() as int] == m);
                }
            }
        } else {
            assert(handled_methods(methods, items) == rest);
        }
        if methods.no_duplicates() {
            assert(init.no_duplicates()) by {
                assert forall|i: int, j: int|
                    0 <= i < init.len() && 0 <= j < init.len() && i != j implies init[i]
                    != init[j] by {
                    assert(init[i] == methods[i] && init[j] == methods[j]);
                }
            }
            assert(!init.contains(last)) by {
                if init.contains(last) {
                    let i = choose|i: int| 0 <= i < init.len() && init[i] == last;
                    assert(methods[i] == methods[methods.len() - 1]);
                }
            }
            if declares_handler(items, last) {
                assert(!rest.contains(last));
                assert forall|i: int, j: int|
                    0 <= i < rest.len() + 1 && 0 <= j < rest.len() + 1 && i != j implies rest.push(
                    last,
                )[i] != rest.push(last)[j] by {
                    if i < rest.len() && j == rest.len() {
                        assert(rest.push(last)[i] == rest[i]);
                    } else if j < rest.len() && i == rest.len() {
                        assert(rest.push(last)[j] == rest[j]);
                    } else if i < rest.len() && j < rest.len() {
                        assert(rest.push(last)[i] == rest[i]);
                        assert(rest.push(last)[j] == rest[j]);
                    }
                }
            }
        }
    } else {
        assert forall|m: Seq<char>| #[trigger]
            handled_methods(methods, items).contains(m) <==> (methods.contains(m) && declares_handler(
                items,
                m,
            )) by {
            assert(handled_methods(methods, items) =~= Seq::<Seq<char>>::empty());
        }
    }
}

/// The methods of `handled_methods` are a subsequence of `methods`.
proof fn lemma_handled_subsequence(methods: Seq<Seq<char>>, items: Seq<ItemModel>) -> (idx: Seq<
    int,
>)
    ensures
        subsequence_witness(handled_methods(methods, items), methods, idx),
    decreases methods.len(),
{
    if methods.len() == 0 {
        Seq::empty()
    } else {
        let init = methods.drop_last();
        let rest = handled_methods(init, items);
        let idx_rest = lemma_handled_subsequence(init, items);
        assert forall|i: int| 0 <= i < rest.len() implies 0 <= #[trigger] idx_rest[i] < methods.len()
            && rest[i] == methods[idx_rest[i]] by {
            assert(init[idx_rest[i]] == methods[idx_rest[i]]);
        }
        if declares_handler(items, methods.last()) {
            let ms = rest.push(methods.last());
            let idx = idx_rest.push(methods.len() - 1);
            assert forall|i: int| 0 <= i < ms.len() implies 0 <= #[trigger] idx[i] < methods.len()
                && ms[i] == methods[idx[i]] by {
                if i < rest.len() {
                    assert(idx[i] == idx_rest[i]);
                    assert(ms[i] == rest[i]);
                }
            }
            assert forall|i: int, j: int| 0 <= i < j < ms.len() implies #[trigger] idx[i]
                < #[trigger] idx[j] by {
                assert(idx[i] == idx_rest[i]);
                if j < rest.len() {
                    assert(idx[j] == idx_rest[j]);
                    assert(idx_rest[i] < idx_rest[j]);
                } else {
                    assert(idx_rest[i] < init.len());
                }
            }
            idx
        } else {
            idx_rest
        }
    }
}

/// The allowed methods are ten different names.
proof fn lemma_allowed_methods_distinct()
    ensures
        allowed_methods().no_duplicates(),
{
    reveal_strlit("any");
    reveal_strlit("get");
    reveal_strlit("post");
    reveal_strlit("put");
    reveal_strlit("delete");
    reveal_strlit("patch");
    reveal_strlit("head");
    reveal_strlit("options");
    reveal_strlit("trace");
    reveal_strlit("connect");
    let a = allowed_methods();
    assert forall|i: int, j: int| 0 <= i < a.len() && 0 <= j < a.len() && i != j implies a[i]
        != a[j] by {
        if a[i] == a[j] {
            assert(a[i].len() == a[j].len());
            assert(a[i][0] == a[j][0]);
        }
    }
}

/// A route registers exactly the allowed methods for which its file
/// declares a `pub async fn` of that name, each once.
pub proof fn lemma_methods_exact(items: Seq<ItemModel>)
    ensures
        forall|m: Seq<char>|
            #[trigger] spec_methods_in_items(items).contains(m) <==> (allowed_methods().contains(m)
                && declares_handler(items, m)),
        spec_methods_in_items(items).no_duplicates(),
{
    lemma_handled_methods(allowed_methods(), items);
    lemma_allowed_methods_distinct();
}

/// A method list holds each method at most once, and `any`, where present,
/// comes first: it opens a route's method chain and is never chained after
/// another method.
pub proof fn lemma_method_list(ms: Seq<Seq<char>>)
    requires
        is_method_list(ms),
    ensures
        ms.no_duplicates(),
        forall|i: int| 0 < i < ms.len() ==> #[trigger] ms[i] != "any"@,
{
    lemma_allowed_methods_distinct();
    let a = allowed_methods();
    let idx = choose|idx: Seq<int>| subsequence_witness(ms, a, idx);
    assert forall|i: int, j: int| 0 <= i < ms.len() && 0 <= j < ms.len() && i != j implies ms[i]
        != ms[j] by {
        assert(idx[i] != idx[j]) by {
            if i < j {
                assert(idx[i] < idx[j]);
            } else {
                assert(idx[j] < idx[i]);
            }
        }
        assert(ms[i] == a[idx[i]]);
        assert(ms[j] == a[idx[j]]);
    }
    assert forall|i: int| 0 < i < ms.len() implies #[trigger] ms[i] != "any"@ by {
        assert(idx[0] < idx[i]);
        assert(0 <= idx[0]);
        assert(ms[i] == a[idx[i]]);
        assert(a[0] == "any"@);
        assert(idx[i] != 0);
    }
}

/// A module namespace is `__folder_router__` followed by one character per
/// character of the struct's name, and holds no ASCII capital after the
/// prefix.
pub proof fn lemma_module_namespace_shape(ident: Seq<char>)
    ensures
        spec_module_namespace(ident).len() == namespace_prefix().len() + ident.len(),
        spec_module_namespace(ident).take(namespace_prefix().len() as int) == namespace_prefix(),
        forall|i: int|
            namespace_prefix().len() <= i < spec_module_namespace(ident).len() ==> !('A'
                <= #[trigger] spec_module_namespace(ident)[i] && spec_module_namespace(ident)[i]
                <= 'Z'),
{
    let ns = spec_module_namespace(ident);
    assert(ns.take(namespace_prefix().len() as int) =~= namespace_prefix());
    assert forall|i: int| namespace_prefix().len() <= i < ns.len() implies !('A' <= #[trigger] ns[i]
        && ns[i] <= 'Z') by {
        let c = ident[i - namespace_prefix().len()];
        assert(ns[i] == namespace_char(c));
    }
}

/// ASCII letters, digits and `_`: the characters of an ASCII identifier.
pub open spec fn is_ascii_ident_char(c: char) -> bool {
    is_ascii_alphanumeric(c) || c == '_'
}

/// Structs whose names are made of ASCII letters, digits and `_`, and
/// differ after ASCII lower-casing, get different module namespaces, so
/// several routers can stand in one module.
pub proof fn lemma_module_namespace_distinct(a: Seq<char>, b: Seq<char>)
    requires
        forall|i: int| 0 <= i < a.len() ==> is_ascii_ident_char(#[trigger] a[i]),
        forall|i: int| 0 <= i < b.len() ==> is_ascii_ident_char(#[trigger] b[i]),
        a.map_values(|c: char| ascii_lowercase(c)) != b.map_values(|c: char| ascii_lowercase(c)),
    ensures
        spec_module_namespace(a) != spec_module_namespace(b),
{
    let la = a.map_values(|c: char| ascii_lowercase(c));
    let lb = b.map_values(|c: char| ascii_lowercase(c));
    let ma = a.map_values(|c: char| namespace_char(c));
    let mb = b.map_values(|c: char| namespace_char(c));
    assert(ma =~= la) by {
        assert forall|i: int| 0 <= i < a.len() implies #[trigger] ma[i] == la[i] by {
            assert(is_ascii_ident_char(a[i]));
        }
    }
    assert(mb =~= lb) by {
        assert forall|i: int| 0 <= i < b.len() implies #[trigger] mb[i] == lb[i] by {
            assert(is_ascii_ident_char(b[i]));
        }
    }
    let p = namespace_prefix();
    if spec_module_namespace(a) == spec_module_namespace(b) {
        assert((p + ma).skip(p.len() as int) =~= ma);
        assert((p + mb).skip(p.len() as int) =~= mb);
    }
}

/// The paths of the files, in order.
pub open spec fn path_keys(files: Seq<RouteFile>) -> Seq<Seq<Seq<char>>> {
    files.map_values(|f: RouteFile| f.path())
}

/// The files come in strictly ascending path order.
pub open spec fn strictly_ascending(files: Seq<RouteFile>) -> bool {
    forall|i: int, j: int|
        0 <= i < j < files.len() ==> path_lt(
            #[trigger] files[i].path(),
            #[trigger] files[j].path(),
        )
}

/// A permutation of files with pairwise different paths has pairwise
/// different paths.
proof fn lemma_distinct_paths_permutation(a: Seq<RouteFile>, b: Seq<RouteFile>)
    requires
        a.to_multiset() == b.to_multiset(),
        path_keys(a).no_duplicates(),
    ensures
        path_keys(b).no_duplicates(),
{
    broadcast use vstd::multiset::group_multiset_axioms;

    assert forall|i: int, j: int|
        0 <= i < b.len() && 0 <= j < b.len() && i != j implies path_keys(b)[i] != path_keys(b)[j] by {
        if path_keys(b)[i] == path_keys(b)[j] {
            vstd::seq_lib::to_multiset_contains(b, b[i]);
            vstd::seq_lib::to_multiset_contains(b, b[j]);
            assert(b.contains(b[i]));
            assert(b.contains(b[j]));
            vstd::seq_lib::to_multiset_contains(a, b[i]);
            vstd::seq_lib::to_multiset_contains(a, b[j]);
            let p = choose|p: int| 0 <= p < a.len() && a[p] == b[i];
            if b[i] != b[j] {
                let q = choose|q: int| 0 <= q < a.len() && a[q] == b[j];
                assert(path_keys(a)[p] == path_keys(a)[q]);
            } else {
                let x = b[i];
                let r = b.remove(i);
                let ri = if j < i { j } else { j - 1 };
                assert(r[ri] == x);
                assert(r.contains(x));
                vstd::seq_lib::to_multiset_remove(b, i);
                vstd::seq_lib::to_multiset_contains(r, x);
                assert(b.to_multiset().count(x) >= 2);
                let ar = a.remove(p);
                vstd::seq_lib::to_multiset_remove(a, p);
                vstd::seq_lib::to_multiset_contains(ar, x);
                assert(ar.contains(x));
                let q0 = choose|q0: int| 0 <= q0 < ar.len() && ar[q0] == x;
                let q = if q0 < p { q0 } else { q0 + 1 };
                assert(a[q] == x);
                assert(q != p);
                assert(path_keys(a)[p] == path_keys(a)[q]);
            }
        }
    }
}

/// Files in path order with pairwise different paths come in strictly
/// ascending order.
pub proof fn lemma_sorted_distinct_strict(files: Seq<RouteFile>)
    requires
        sorted_by_path(files),
        path_keys(files).no_duplicates(),
    ensures
        strictly_ascending(files),
{
    assert forall|i: int, j: int| 0 <= i < j < files.len() implies path_lt(
        #[trigger] files[i].path(),
        #[trigger] files[j].path(),
    ) by {
        assert(path_keys(files)[i] != path_keys(files)[j]);
        lemma_path_lt_total(files[i].path(), files[j].path());
    }
}

/// Sorting route files whose paths differ pairwise puts them in strictly
/// ascending order.
pub proof fn lemma_sort_strict(files: Seq<RouteFile>, sorted: Seq<RouteFile>)
    requires
        sorted.to_multiset() == files.to_multiset(),
        sorted_by_path(sorted),
        path_keys(files).no_duplicates(),
    ensures
        strictly_ascending(sorted),
{
    lemma_distinct_paths_permutation(files, sorted);
    lemma_sorted_distinct_strict(sorted);
}

/// In every route file, each method appears once and `any`, where
/// present, opens the method chain: it is never chained after another
/// method.
pub proof fn lemma_route_file_methods(files: Seq<RouteFile>)
    requires
        all_method_lists(files),
    ensures
        forall|i: int| 0 <= i < files.len() ==> (#[trigger] files[i].method_names()).no_duplicates(),
        forall|i: int, k: int|
            0 <= i < files.len() && 0 < k < files[i].method_names().len()
                ==> #[trigger] files[i].method_names()[k] != "any"@,
{
    assert forall|i: int| 0 <= i < files.len() implies (
    #[trigger] files[i].method_names()).no_duplicates() by {
        lemma_method_list(files[i].method_names());
    }
    assert forall|i: int, k: int|
        0 <= i < files.len() && 0 < k < files[i].method_names().len()
            implies #[trigger] files[i].method_names()[k] != "any"@ by {
        lemma_method_list(files[i].method_names());
    }
}

/// Which methods are registered depends only on which methods the items
/// declare `pub async fn` handlers for: items that declare the same
/// handlers register the same methods, whatever other items (`use`
/// declarations, private or synchronous functions, ...) stand among them
/// and in whatever order.
pub proof fn lemma_methods_depend_on_handlers(a: Seq<ItemModel>, b: Seq<ItemModel>)
    requires
        forall|m: Seq<char>| declares_handler(a, m) <==> declares_handler(b, m),
    ensures
        spec_methods_in_items(a) == spec_methods_in_items(b),
{
    lemma_handled_methods_same(allowed_methods(), a, b);
}

/// `handled_methods` agrees on items that declare the same handlers.
proof fn lemma_handled_methods_same(methods: Seq<Seq<char>>, a: Seq<ItemModel>, b: Seq<ItemModel>)
    requires
        forall|m: Seq<char>| declares_handler(a, m) <==> declares_handler(b, m),
    ensures
        handled_methods(methods, a) == handled_methods(methods, b),
    decreases methods.len(),
{
    if methods.len() > 0 {
        lemma_handled_methods_same(methods.drop_last(), a, b);
        assert(declares_handler(a, methods.last()) <==> declares_handler(b, methods.last()));
    }
}

/// Adding an item that is not a `pub async fn` (a `use` declaration, a
/// private or synchronous function, ...) anywhere among the items leaves the
/// registered methods as they are.
pub proof fn lemma_methods_ignore_other_items(items: Seq<ItemModel>, k: int, extra: ItemModel)
    requires
        0 <= k <= items.len(),
        !(extra matches ItemModel::Function { is_public: true, is_async: true, .. }),
    ensures
        spec_methods_in_items(items.insert(k, extra)) == spec_methods_in_items(items),
{
    let longer = items.insert(k, extra);
    assert forall|m: Seq<char>| declares_handler(longer, m) <==> declares_handler(items, m) by {
        let h = ItemModel::Function { name: m, is_public: true, is_async: true };
        if declares_handler(longer, m) {
            let i = choose|i: int| 0 <= i < longer.len() && longer[i] == h;
            if i < k {
                assert(items[i] == h);
            } else if i > k {
                assert(items[i - 1] == h);
            }
        }
        if declares_handler(items, m) {
            let i = choose|i: int| 0 <= i < items.len() && items[i] == h;
            if i < k {
                assert(longer[i] == h);
            } else {
                assert(longer[i + 1] == h);
            }
        }
    }
    lemma_methods_depend_on_handlers(longer, items);
}

/// A top-level `pub async fn` named after an allowed method is registered,
/// whatever its parameters or body (the items record only name, `pub` and
/// `async`), and only allowed methods that some item declares so are.
pub proof fn lemma_handler_registered(items: Seq<ItemModel>, m: Seq<char>)
    ensures
        spec_methods_in_items(items).contains(m) <==> (allowed_methods().contains(m)
            && declares_handler(items, m)),
{
    lemma_methods_exact(items);
}

/// The methods of a route file's text are exactly the allowed methods for
/// which the parsed file declares a top-level `pub async fn`, and none where
/// it did not parse.
pub proof fn lemma_outcome_methods(outcome: Option<Vec<TopItem>>, m: Seq<char>)
    ensures
        outcome is None ==> outcome_methods(outcome).len() == 0,
        outcome matches Some(items) ==> (outcome_methods(outcome).contains(m) <==> (
        allowed_methods().contains(m) && declares_handler(item_models(items@), m))),
{
    if let Some(items) = outcome {
        lemma_methods_exact(item_models(items@));
    }
}

} // verus!
