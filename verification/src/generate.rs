//! Route paths, module paths and the generated router text.

use vstd::prelude::*;

use crate::parse::{
    spec_module_namespace, FolderRouterArgs, FolderRouterItem, FolderRouterRoutes, RouteFile,
};
use crate::ident::{check_identifier, is_identifier};
use crate::text::push_char;

verus! {

/// A path segment written as `[...]` names a path parameter.
pub open spec fn is_bracketed(name: Seq<char>) -> bool {
    name.len() >= 2 && name[0] == '[' && name[name.len() - 1] == ']'
}

/// What stands between the brackets of a `[...]` segment.
pub open spec fn bracket_inner(name: Seq<char>) -> Seq<char> {
    name.subrange(1, name.len() - 1)
}

/// A parameter written `...name` is a catch-all parameter.
pub open spec fn is_spread(inner: Seq<char>) -> bool {
    inner.len() >= 3 && inner[0] == '.' && inner[1] == '.' && inner[2] == '.'
}

/// Every `-` and `.` replaced by `_`.
pub open spec fn replace_separators(name: Seq<char>) -> Seq<char> {
    name.map_values(|c: char| if c == '-' || c == '.' { '_' } else { c })
}

/// The module name that stands for a directory name.
pub open spec fn spec_normalize_module_name(name: Seq<char>) -> Seq<char> {
    if is_bracketed(name) {
        let inner = bracket_inner(name);
        if is_spread(inner) {
            seq!['_', '_', '_'] + inner.skip(3)
        } else {
            seq!['_', '_'] + inner
        }
    } else {
        replace_separators(name)
    }
}

/// Tests whether a segment is written `[...]`.
fn check_bracketed(name: &str) -> (res: bool)
    ensures
        res == is_bracketed(name@),
{
    let n = name.unicode_len();
    n >= 2 && name.get_char(0) == '[' && name.get_char(n - 1) == ']'
}

/// Tests whether a parameter starts with `...`.
fn check_spread(inner: &str) -> (res: bool)
    ensures
        res == is_spread(inner@),
{
    let m = inner.unicode_len();
    m >= 3 && inner.get_char(0) == '.' && inner.get_char(1) == '.' && inner.get_char(2) == '.'
}

/// Normalizes a directory name for use as a module name:
/// `[id]` becomes `__id`, `[...rest]` becomes `___rest`, and in any other
/// name `-` and `.` become `_`.
pub fn normalize_module_name(name: &str) -> (res: String)
    ensures
        res@ == spec_normalize_module_name(name@),
{
    let n = name.unicode_len();
    if check_bracketed(name) {
        let inner = name.substring_char(1, n - 1);
        let m = n - 2;
        let mut res = String::new();
        if check_spread(inner) {
            push_char(&mut res, '_');
            push_char(&mut res, '_');
            push_char(&mut res, '_');
            res.append(inner.substring_char(3, m));
        } else {
            push_char(&mut res, '_');
            push_char(&mut res, '_');
            res.append(inner);
        }
        res
    } else {
        let mut res = String::new();
        let mut i: usize = 0;
        while i < n
            invariant
                n == name@.len(),
                i <= n,
                res@ == replace_separators(name@.take(i as int)),
            decreases n - i,
        {
            let c = name.get_char(i);
            if c == '-' || c == '.' {
                push_char(&mut res, '_');
            } else {
                push_char(&mut res, c);
            }
            assert(name@.take(i + 1) == name@.take(i as int).push(c));
            i += 1;
        }
        assert(name@.take(n as int) == name@);
        res
    }
}

/// The piece of the route path that a directory name contributes:
/// `/{*rest}` for `[...rest]`, `/{id}` for `[id]`, else `/name`.
pub open spec fn spec_route_segment(name: Seq<char>) -> Seq<char> {
    if is_bracketed(name) {
        let inner = bracket_inner(name);
        if is_spread(inner) {
            seq!['/', '{', '*'] + inner.skip(3) + seq!['}']
        } else {
            seq!['/', '{'] + inner + seq!['}']
        }
    } else {
        seq!['/'] + name
    }
}

/// The route pieces of a sequence of directory names, joined in order.
pub open spec fn route_segments_text(dirs: Seq<Seq<char>>) -> Seq<char>
    decreases dirs.len(),
{
    if dirs.len() == 0 {
        Seq::empty()
    } else {
        route_segments_text(dirs.drop_last()) + spec_route_segment(dirs.last())
    }
}

/// The directories of a relative file path: every component but the last,
/// which names the file itself.
pub open spec fn directories(components: Seq<Seq<char>>) -> Seq<Seq<char>> {
    if components.len() == 0 {
        components
    } else {
        components.drop_last()
    }
}

/// The Axum route path of a `route.rs` file, given the components of its
/// path relative to the route directory.
pub open spec fn spec_axum_path(components: Seq<Seq<char>>) -> Seq<char> {
    if directories(components).len() == 0 {
        seq!['/']
    } else {
        route_segments_text(directories(components))
    }
}

/// The module names of the directories that lead to a `route.rs` file.
pub open spec fn spec_mod_path(components: Seq<Seq<char>>) -> Seq<Seq<char>> {
    directories(components).map_values(|d: Seq<char>| spec_normalize_module_name(d))
}

/// Appends the route piece of one directory name.
fn push_route_segment(route: &mut String, name: &str)
    ensures
        final(route)@ == old(route)@ + spec_route_segment(name@),
{
    let n = name.unicode_len();
    if check_bracketed(name) {
        let inner = name.substring_char(1, n - 1);
        let m = n - 2;
        push_char(route, '/');
        push_char(route, '{');
        if check_spread(inner) {
            push_char(route, '*');
            route.append(inner.substring_char(3, m));
        } else {
            route.append(inner);
        }
        push_char(route, '}');
    } else {
        push_char(route, '/');
        route.append(name);
    }
}

/// Converts the components of a `route.rs` path, relative to the route
/// directory, into the Axum route path and the module path of the file's
/// directory.
///
/// The last component names the file and contributes nothing; with no
/// directory in front of it the route is `/`.
pub fn path_to_module_path(components: &Vec<String>) -> (res: (String, Vec<String>))
    ensures
        res.0@ == spec_axum_path(components.deep_view()),
        res.1.deep_view() == spec_mod_path(components.deep_view()),
{
    let ghost comps = components.deep_view();
    let n = components.len();
    let mut axum_path = String::new();
    let mut mod_path: Vec<String> = Vec::new();
    if n == 0 {
        push_char(&mut axum_path, '/');
        assert(mod_path.deep_view() =~= spec_mod_path(comps));
        return (axum_path, mod_path);
    }
    let mut i: usize = 0;
    while i < n - 1
        invariant
            n == components.len(),
            comps == components.deep_view(),
            n >= 1,
            i <= n - 1,
            axum_path@ == route_segments_text(comps.take(i as int)),
            mod_path.deep_view() == comps.take(i as int).map_values(
                |d: Seq<char>| spec_normalize_module_name(d),
            ),
        decreases n - 1 - i,
    {
        let segment = components[i].as_str();
        assert(segment@ == comps[i as int]);
        let normalized = normalize_module_name(segment);
        let ghost before = mod_path.deep_view();
        mod_path.push(normalized);
        assert(mod_path.deep_view() =~= before.push(spec_normalize_module_name(comps[i as int])));
        push_route_segment(&mut axum_path, segment);
        assert(comps.take(i + 1).drop_last() =~= comps.take(i as int));
        assert(mod_path.deep_view() =~= comps.take(i + 1).map_values(
            |d: Seq<char>| spec_normalize_module_name(d),
        ));
        i += 1;
    }
    assert(comps.take((n - 1) as int) =~= directories(comps));
    if axum_path.as_str().is_empty() {
        push_char(&mut axum_path, '/');
    }
    (axum_path, mod_path)
}

// ---------------------------------------------------------------------------
// Generated text
// ---------------------------------------------------------------------------

/// How a character is written inside a Rust string literal.
pub open spec fn escape_char(c: char) -> Seq<char> {
    if c == '\\' {
        seq!['\\', '\\']
    } else if c == '"' {
        seq!['\\', '"']
    } else if c == '\n' {
        seq!['\\', 'n']
    } else if c == '\r' {
        seq!['\\', 'r']
    } else if c == '\t' {
        seq!['\\', 't']
    } else if c == '\0' {
        seq!['\\', 'x', '0', '0']
    } else {
        seq![c]
    }
}

/// A text with each character escaped for a string literal.
pub open spec fn escape_text(s: Seq<char>) -> Seq<char>
    decreases s.len(),
{
    if s.len() == 0 {
        Seq::empty()
    } else {
        escape_text(s.drop_last()) + escape_char(s.last())
    }
}

/// The Rust string literal whose value is `s`.
pub open spec fn string_literal(s: Seq<char>) -> Seq<char> {
    seq!['"'] + escape_text(s) + seq!['"']
}

/// Appends one character, escaped for a string literal.
fn push_escaped_char(out: &mut String, c: char)
    ensures
        final(out)@ == old(out)@ + escape_char(c),
{
    if c == '\\' {
        push_char(out, '\\');
        push_char(out, '\\');
    } else if c == '"' {
        push_char(out, '\\');
        push_char(out, '"');
    } else if c == '\n' {
        push_char(out, '\\');
        push_char(out, 'n');
    } else if c == '\r' {
        push_char(out, '\\');
        push_char(out, 'r');
    } else if c == '\t' {
        push_char(out, '\\');
        push_char(out, 't');
    } else if c == '\0' {
        push_char(out, '\\');
        push_char(out, 'x');
        push_char(out, '0');
        push_char(out, '0');
    } else {
        push_char(out, c);
    }
}

/// Appends the Rust string literal whose value is `s`.
fn push_string_literal(out: &mut String, s: &str)
    ensures
        final(out)@ == old(out)@ + string_literal(s@),
{
    let ghost start = out@;
    push_char(out, '"');
    let n = s.unicode_len();
    let mut i: usize = 0;
    while i < n
        invariant
            n == s@.len(),
            i <= n,
            out@ == start + seq!['"'] + escape_text(s@.take(i as int)),
        decreases n - i,
    {
        let c = s.get_char(i);
        push_escaped_char(out, c);
        assert(s@.take(i + 1).drop_last() =~= s@.take(i as int));
        i += 1;
    }
    assert(s@.take(n as int) =~= s@);
    push_char(out, '"');
    assert(out@ =~= start + string_literal(s@));
}

/// The path suffix of a module path: `::` before each module name.
pub open spec fn mod_path_text(mod_path: Seq<Seq<char>>) -> Seq<char>
    decreases mod_path.len(),
{
    if mod_path.len() == 0 {
        Seq::empty()
    } else {
        mod_path_text(mod_path.drop_last()) + "::"@ + mod_path.last()
    }
}

/// Every module name of a module path is an identifier.
pub open spec fn modules_are_identifiers(mod_path: Seq<Seq<char>>) -> bool {
    forall|i: int| 0 <= i < mod_path.len() ==> is_identifier(#[trigger] mod_path[i])
}

/// Writes a module path as the path suffix `::a::b::c` that leads from the
/// router's namespace module to the module of a route file.
pub fn generate_mod_path_tokens(mod_path: &Vec<String>) -> (res: String)
    requires
        modules_are_identifiers(mod_path.deep_view()),
    ensures
        res@ == mod_path_text(mod_path.deep_view()),
{
    let ghost mp = mod_path.deep_view();
    let mut res = String::new();
    let mut i: usize = 0;
    while i < mod_path.len()
        invariant
            mp == mod_path.deep_view(),
            i <= mod_path.len(),
            res@ == mod_path_text(mp.take(i as int)),
        decreases mod_path.len() - i,
    {
        res.append("::");
        res.append(mod_path[i].as_str());
        assert(mp.take(i + 1).drop_last() =~= mp.take(i as int));
        i += 1;
    }
    assert(mp.take(mod_path.len() as int) =~= mp);
    res
}

/// The path of the handler for `method` of the route file whose module path
/// is `mod_path`.
pub open spec fn handler_path(ns: Seq<char>, mod_path: Seq<Seq<char>>, method: Seq<char>) -> Seq<
    char,
> {
    "__folder_router::"@ + ns + mod_path_text(mod_path) + "::"@ + method
}

/// The method router of a route: `axum::routing::m0(h0).m1(h1)...`.
pub open spec fn method_chain(ns: Seq<char>, mod_path: Seq<Seq<char>>, methods: Seq<Seq<char>>) -> Seq<
    char,
>
    decreases methods.len(),
{
    if methods.len() == 0 {
        Seq::empty()
    } else if methods.len() == 1 {
        "axum::routing::"@ + methods[0] + "("@ + handler_path(ns, mod_path, methods[0]) + ")"@
    } else {
        method_chain(ns, mod_path, methods.drop_last()) + "."@ + methods.last() + "("@
            + handler_path(ns, mod_path, methods.last()) + ")"@
    }
}

/// The statement that registers one route.
pub open spec fn registration_text(
    route: Seq<char>,
    ns: Seq<char>,
    mod_path: Seq<Seq<char>>,
    methods: Seq<Seq<char>>,
) -> Seq<char> {
    "router = router.route("@ + string_literal(route) + ", "@ + method_chain(ns, mod_path, methods)
        + ");"@
}

/// The registration of one route file: nothing where it declares no
/// handler.
pub open spec fn route_text(ns: Seq<char>, file: (Seq<Seq<char>>, Seq<Seq<char>>)) -> Seq<char> {
    let methods = file.1;
    if methods.len() == 0 {
        Seq::empty()
    } else {
        registration_text(spec_axum_path(file.0), ns, spec_mod_path(file.0), methods)
    }
}

/// The registrations of all route files, in their order.
pub open spec fn registrations_text(ns: Seq<char>, files: Seq<(Seq<Seq<char>>, Seq<Seq<char>>)>) -> Seq<
    char,
>
    decreases files.len(),
{
    if files.len() == 0 {
        Seq::empty()
    } else {
        registrations_text(ns, files.drop_last()) + route_text(ns, files.last())
    }
}

/// A route file's module names are identifiers wherever they are written,
/// that is, where the file declares a handler.
pub open spec fn route_modules_valid(file: (Seq<Seq<char>>, Seq<Seq<char>>)) -> bool {
    file.1.len() == 0 || modules_are_identifiers(spec_mod_path(file.0))
}

/// Every route file's module names are identifiers wherever they are
/// written.
pub open spec fn all_route_modules_valid(files: Seq<(Seq<Seq<char>>, Seq<Seq<char>>)>) -> bool {
    forall|i: int| 0 <= i < files.len() ==> route_modules_valid(#[trigger] files[i])
}

/// The first module name of a module path that is not an identifier.
pub open spec fn first_invalid_in_path(mod_path: Seq<Seq<char>>) -> Option<Seq<char>>
    decreases mod_path.len(),
{
    if mod_path.len() == 0 {
        None
    } else if !is_identifier(mod_path[0]) {
        Some(mod_path[0])
    } else {
        first_invalid_in_path(mod_path.drop_first())
    }
}

/// The first module name, in route order, that would be written and is not
/// an identifier.
pub open spec fn first_invalid_module(files: Seq<(Seq<Seq<char>>, Seq<Seq<char>>)>) -> Option<
    Seq<char>,
>
    decreases files.len(),
{
    if files.len() == 0 {
        None
    } else {
        let here = if files[0].1.len() == 0 {
            None
        } else {
            first_invalid_in_path(spec_mod_path(files[0].0))
        };
        match here {
            Some(name) => Some(name),
            None => first_invalid_module(files.drop_first()),
        }
    }
}

/// A module path has no invalid module name exactly when all its names are
/// identifiers.
proof fn lemma_first_invalid_in_path(mod_path: Seq<Seq<char>>)
    ensures
        first_invalid_in_path(mod_path) is None <==> modules_are_identifiers(mod_path),
    decreases mod_path.len(),
{
    if mod_path.len() > 0 {
        let rest = mod_path.drop_first();
        lemma_first_invalid_in_path(rest);
        if modules_are_identifiers(mod_path) {
            assert forall|i: int| 0 <= i < rest.len() implies is_identifier(#[trigger] rest[i]) by {
                assert(rest[i] == mod_path[i + 1]);
            }
        }
        if is_identifier(mod_path[0]) && modules_are_identifiers(rest) {
            assert forall|i: int| 0 <= i < mod_path.len() implies is_identifier(
                #[trigger] mod_path[i],
            ) by {
                if i > 0 {
                    assert(mod_path[i] == rest[i - 1]);
                }
            }
        }
    }
}

/// The files have no invalid module name exactly when all their written
/// module names are identifiers.
pub proof fn lemma_first_invalid_module(files: Seq<(Seq<Seq<char>>, Seq<Seq<char>>)>)
    ensures
        first_invalid_module(files) is None <==> all_route_modules_valid(files),
    decreases files.len(),
{
    if files.len() > 0 {
        let rest = files.drop_first();
        lemma_first_invalid_module(rest);
        lemma_first_invalid_in_path(spec_mod_path(files[0].0));
        if all_route_modules_valid(files) {
            assert(route_modules_valid(files[0]));
            assert forall|i: int| 0 <= i < rest.len() implies route_modules_valid(
                #[trigger] rest[i],
            ) by {
                assert(rest[i] == files[i + 1]);
            }
        }
        if route_modules_valid(files[0]) && all_route_modules_valid(rest) {
            assert forall|i: int| 0 <= i < files.len() implies route_modules_valid(
                #[trigger] files[i],
            ) by {
                if i > 0 {
                    assert(files[i] == rest[i - 1]);
                }
            }
        }
    }
}

/// The first module name of a module path that is not an identifier.
fn find_invalid_in_path(mod_path: &Vec<String>) -> (res: Option<String>)
    ensures
        res.deep_view() == first_invalid_in_path(mod_path.deep_view()),
{
    let ghost mp = mod_path.deep_view();
    let mut i: usize = 0;
    assert(mp.skip(0) =~= mp);
    while i < mod_path.len()
        invariant
            mp == mod_path.deep_view(),
            i <= mod_path.len(),
            first_invalid_in_path(mp) == first_invalid_in_path(mp.skip(i as int)),
        decreases mod_path.len() - i,
    {
        let name = mod_path[i].as_str();
        assert(name@ == mp[i as int]);
        assert(mp.skip(i as int)[0] == mp[i as int]);
        if !check_identifier(name) {
            return Some(mod_path[i].clone());
        }
        assert(mp.skip(i as int).drop_first() =~= mp.skip(i + 1));
        i += 1;
    }
    assert(mp.skip(i as int) =~= Seq::<Seq<char>>::empty());
    None
}

/// The first module name, in route order, that would be written into the
/// router and is not an identifier, if any: `format_ident!` refuses such a
/// name.
pub fn invalid_module_name(routes: &FolderRouterRoutes) -> (res: Option<String>)
    ensures
        res.deep_view() == first_invalid_module(routes@),
        res is None <==> all_route_modules_valid(routes@),
{
    proof {
        lemma_first_invalid_module(routes@);
    }
    let files = routes.routes();
    let ghost views = routes@;
    let mut i: usize = 0;
    assert(views.skip(0) =~= views);
    while i < files.len()
        invariant
            views == files@.map_values(|f: RouteFile| f@),
            views == routes@,
            i <= files.len(),
            first_invalid_module(views) is None <==> all_route_modules_valid(views),
            first_invalid_module(views) == first_invalid_module(views.skip(i as int)),
        decreases files.len() - i,
    {
        let file = &files[i];
        assert(file@ == views[i as int]);
        assert(views.skip(i as int)[0] == views[i as int]);
        if file.methods().len() > 0 {
            let (_, mod_path) = path_to_module_path(file.rel_path());
            let found = find_invalid_in_path(&mod_path);
            if found.is_some() {
                assert(first_invalid_module(views.skip(i as int)) == found.deep_view());
                return found;
            }
        }
        assert(views.skip(i as int).drop_first() =~= views.skip(i + 1));
        i += 1;
    }
    assert(views.skip(i as int) =~= Seq::<(Seq<Seq<char>>, Seq<Seq<char>>)>::empty());
    None
}

/// Appends the path of the handler for `method`.
fn push_handler_path(out: &mut String, ns: &str, mod_path_tokens: &str, method: &str)
    ensures
        final(out)@ == old(out)@ + "__folder_router::"@ + ns@ + mod_path_tokens@ + "::"@
            + method@,
{
    out.append("__folder_router::");
    out.append(ns);
    out.append(mod_path_tokens);
    out.append("::");
    out.append(method);
}

/// Appends the statement that registers the route `route` with its handlers.
#[verifier::rlimit(50)]
fn push_registration(
    out: &mut String,
    route: &str,
    ns: &str,
    mod_path: &Vec<String>,
    methods: &Vec<&'static str>,
)
    requires
        methods@.len() > 0,
        modules_are_identifiers(mod_path.deep_view()),
    ensures
        final(out)@ == old(out)@ + registration_text(
            route@,
            ns@,
            mod_path.deep_view(),
            methods.deep_view(),
        ),
{
    let ghost start = old(out)@;
    let ghost mp = mod_path.deep_view();
    let ghost ms = methods.deep_view();
    let mod_path_tokens = generate_mod_path_tokens(mod_path);
    out.append("router = router.route(");
    push_string_literal(out, route);
    out.append(", ");
    let ghost head = out@;
    let mut k: usize = 0;
    while k < methods.len()
        invariant
            ms == methods.deep_view(),
            mod_path_tokens@ == mod_path_text(mp),
            k <= methods.len(),
            out@ == head + method_chain(ns@, mp, ms.take(k as int)),
        decreases methods.len() - k,
    {
        let method = methods[k];
        assert(method@ == ms[k as int]);
        let ghost prefix = out@;
        if k == 0 {
            out.append("axum::routing::");
        } else {
            out.append(".");
        }
        out.append(method);
        out.append("(");
        push_handler_path(out, ns, mod_path_tokens.as_str(), method);
        out.append(")");
        assert(ms.take(k + 1).drop_last() =~= ms.take(k as int));
        assert(ms.take(k + 1).last() == ms[k as int]);
        if k == 0 {
            assert(ms.take(1)[0] == ms[0]);
            assert(ms.take(0) =~= Seq::<Seq<char>>::empty());
            assert(out@ =~= head + method_chain(ns@, mp, ms.take(1)));
        } else {
            assert(out@ =~= head + method_chain(ns@, mp, ms.take(k + 1)));
        }
        k += 1;
    }
    assert(ms.take(methods.len() as int) =~= ms);
    out.append(");");
    assert(out@ =~= start + registration_text(route@, ns@, mp, ms));
}

/// The statements that register every route file that declares at least
/// one handler, in the order of the route files, each with its handlers in
/// the fixed method order. A route file that declares no handler is left
/// out.
pub fn route_registrations(mod_namespace: &str, routes: &FolderRouterRoutes) -> (res: String)
    requires
        all_route_modules_valid(routes@),
    ensures
        res@ == registrations_text(mod_namespace@, routes@),
{
    let files = routes.routes();
    let ghost views = routes@;
    let mut res = String::new();
    let mut i: usize = 0;
    while i < files.len()
        invariant
            views == files@.map_values(|f: RouteFile| f@),
            all_route_modules_valid(views),
            i <= files.len(),
            res@ == registrations_text(mod_namespace@, views.take(i as int)),
        decreases files.len() - i,
    {
        let file = &files[i];
        assert(file@ == views[i as int]);
        let (axum_path, mod_path) = path_to_module_path(file.rel_path());
        if file.methods().len() > 0 {
            assert(route_modules_valid(views[i as int]));
            push_registration(
                &mut res,
                axum_path.as_str(),
                mod_namespace,
                &mod_path,
                file.methods(),
            );
        }
        assert(views.take(i + 1).drop_last() =~= views.take(i as int));
        i += 1;
    }
    assert(views.take(files.len() as int) =~= views);
    res
}

/// The error reported when no route file declares a handler.
pub open spec fn no_methods_message() -> Seq<char> {
    "No methods defined in your files!\nEnsure that at least one `pub async fn` named after an HTTP verb is defined. (e.g. get, post, put, delete)"@
}

/// The `into_router` implementation of the router struct.
pub open spec fn router_impl_text(struct_name: Seq<char>, state_type: Seq<char>, registrations: Seq<
    char,
>) -> Seq<char> {
    "impl "@ + struct_name + " { pub fn into_router() -> axum::Router<"@ + state_type
        + "> { let mut router = axum::Router::new(); "@ + registrations + " router } }"@
}

/// Generates `impl Struct { pub fn into_router() -> axum::Router<State> }`,
/// which registers every route file's handlers; where no route file
/// declares a handler it also reports an error.
pub fn router_impl(
    errors: &mut Vec<String>,
    args: &FolderRouterArgs,
    item: &FolderRouterItem,
    routes: &FolderRouterRoutes,
) -> (res: String)
    requires
        all_route_modules_valid(routes@),
    ensures
        res@ == router_impl_text(
            item.ident_view(),
            args.state_type@,
            registrations_text(spec_module_namespace(item.ident_view()), routes@),
        ),
        registrations_text(spec_module_namespace(item.ident_view()), routes@).len() == 0
            ==> final(errors).deep_view() == old(errors).deep_view().push(no_methods_message()),
        registrations_text(spec_module_namespace(item.ident_view()), routes@).len() != 0
            ==> final(errors).deep_view() == old(errors).deep_view(),
{
    let struct_name = item.struct_name();
    let namespace = item.module_namespace();
    let registrations = route_registrations(namespace.as_str(), routes);
    if registrations.as_str().is_empty() {
        let message = String::from_str(
            "No methods defined in your files!\nEnsure that at least one `pub async fn` named after an HTTP verb is defined. (e.g. get, post, put, delete)",
        );
        let ghost before = errors.deep_view();
        errors.push(message);
        assert(errors.deep_view() =~= before.push(no_methods_message()));
    }
    let mut res = String::new();
    res.append("impl ");
    res.append(struct_name.as_str());
    res.append(" { pub fn into_router() -> axum::Router<");
    res.append(args.state_type.as_str());
    res.append("> { let mut router = axum::Router::new(); ");
    res.append(registrations.as_str());
    res.append(" router } }");
    res
}

/// The statement that reports `message` as a compile error.
pub open spec fn compile_error_text(message: Seq<char>) -> Seq<char> {
    "compile_error!("@ + string_literal(message) + ");"@
}

/// The statements that report the errors, in order.
pub open spec fn compile_errors_text(errors: Seq<Seq<char>>) -> Seq<char>
    decreases errors.len(),
{
    if errors.len() == 0 {
        Seq::empty()
    } else {
        compile_errors_text(errors.drop_last()) + compile_error_text(errors.last())
    }
}

/// Writes one `compile_error!("...");` statement per error, in order.
pub fn compile_errors(errors: &Vec<String>) -> (res: String)
    ensures
        res@ == compile_errors_text(errors.deep_view()),
{
    let ghost ev = errors.deep_view();
    let mut res = String::new();
    let mut i: usize = 0;
    while i < errors.len()
        invariant
            ev == errors.deep_view(),
            i <= errors.len(),
            res@ == compile_errors_text(ev.take(i as int)),
        decreases errors.len() - i,
    {
        let message = errors[i].as_str();
        assert(message@ == ev[i as int]);
        res.append("compile_error!(");
        push_string_literal(&mut res, message);
        res.append(");");
        assert(ev.take(i + 1).drop_last() =~= ev.take(i as int));
        i += 1;
    }
    assert(ev.take(errors.len() as int) =~= ev);
    res
}

/// The module declarations that load the route directory as the router's
/// namespace module.
pub open spec fn module_tree_text(base_dir: Seq<char>, ns: Seq<char>) -> Seq<char> {
    "pub(crate) mod __folder_router { #[path = "@ + string_literal(base_dir)
        + "] pub(crate) mod "@ + ns + "; }"@
}

/// Generates `pub(crate) mod __folder_router { #[path = "<dir>"] pub(crate)
/// mod <namespace>; }` for the absolute route directory `base_dir`.
pub fn module_tree(base_dir: &str, item: &FolderRouterItem) -> (res: String)
    ensures
        res@ == module_tree_text(base_dir@, spec_module_namespace(item.ident_view())),
{
    let namespace = item.module_namespace();
    let mut res = String::new();
    res.append("pub(crate) mod __folder_router { #[path = ");
    push_string_literal(&mut res, base_dir);
    res.append("] pub(crate) mod ");
    res.append(namespace.as_str());
    res.append("; }");
    res
}

// ---------------------------------------------------------------------------
// Laws
// ---------------------------------------------------------------------------

/// A plain directory name keeps its length and loses every `-` and `.`,
/// so that it can stand as a module name.
pub proof fn lemma_plain_module_name(name: Seq<char>)
    requires
        !is_bracketed(name),
    ensures
        spec_normalize_module_name(name).len() == name.len(),
        forall|i: int|
            0 <= i < name.len() ==> #[trigger] spec_normalize_module_name(name)[i] != '-'
                && spec_normalize_module_name(name)[i] != '.',
        forall|i: int|
            0 <= i < name.len() && name[i] != '-' && name[i] != '.'
                ==> #[trigger] spec_normalize_module_name(name)[i] == name[i],
{
}

/// The module name of a parameter directory (`[id]`, `[...rest]`) starts
/// with `__`, and with `___` for a catch-all parameter.
pub proof fn lemma_parameter_module_name(name: Seq<char>)
    requires
        is_bracketed(name),
    ensures
        spec_normalize_module_name(name).len() >= 2,
        spec_normalize_module_name(name)[0] == '_',
        spec_normalize_module_name(name)[1] == '_',
        is_spread(bracket_inner(name)) ==> spec_normalize_module_name(name)[2] == '_',
{
}

/// The route pieces of at least one directory start with `/`.
proof fn lemma_route_segments_start(dirs: Seq<Seq<char>>)
    requires
        dirs.len() > 0,
    ensures
        route_segments_text(dirs).len() > 0,
        route_segments_text(dirs)[0] == '/',
    decreases dirs.len(),
{
    let seg = spec_route_segment(dirs.last());
    assert(seg.len() > 0 && seg[0] == '/');
    if dirs.len() > 1 {
        lemma_route_segments_start(dirs.drop_last());
    } else {
        assert(route_segments_text(dirs.drop_last()) =~= Seq::<char>::empty());
        assert(route_segments_text(dirs) =~= seg);
    }
}

/// Every route path starts with `/`, and a route file has one module name
/// per directory above it.
pub proof fn lemma_route_path_shape(components: Seq<Seq<char>>)
    ensures
        spec_axum_path(components).len() > 0,
        spec_axum_path(components)[0] == '/',
        spec_mod_path(components).len() == directories(components).len(),
        components.len() > 0 ==> directories(components).len() == components.len() - 1,
{
    if directories(components).len() > 0 {
        lemma_route_segments_start(directories(components));
    }
}

/// How many times `c` occurs in `s`.
pub open spec fn count_char(s: Seq<char>, c: char) -> nat
    decreases s.len(),
{
    if s.len() == 0 {
        0
    } else {
        count_char(s.drop_last(), c) + if s.last() == c {
            1nat
        } else {
            0nat
        }
    }
}

/// Counting over a concatenation.
proof fn lemma_count_concat(a: Seq<char>, b: Seq<char>, c: char)
    ensures
        count_char(a + b, c) == count_char(a, c) + count_char(b, c),
    decreases b.len(),
{
    if b.len() == 0 {
        assert(a + b =~= a);
    } else {
        lemma_count_concat(a, b.drop_last(), c);
        assert((a + b).drop_last() =~= a + b.drop_last());
    }
}

/// A text without `c` counts none.
proof fn lemma_count_absent(s: Seq<char>, c: char)
    requires
        !s.contains(c),
    ensures
        count_char(s, c) == 0,
    decreases s.len(),
{
    if s.len() > 0 {
        assert(!s.drop_last().contains(c)) by {
            if s.drop_last().contains(c) {
                let i = choose|i: int| 0 <= i < s.drop_last().len() && s.drop_last()[i] == c;
                assert(s[i] == c);
            }
        }
        lemma_count_absent(s.drop_last(), c);
        assert(s[s.len() - 1] != c);
    }
}

/// A subrange of a text without `c` has none.
proof fn lemma_subrange_absent(s: Seq<char>, lo: int, hi: int, c: char)
    requires
        !s.contains(c),
        0 <= lo <= hi <= s.len(),
    ensures
        !s.subrange(lo, hi).contains(c),
{
    if s.subrange(lo, hi).contains(c) {
        let i = choose|i: int| 0 <= i < hi - lo && s.subrange(lo, hi)[i] == c;
        assert(s[lo + i] == c);
    }
}

/// The route piece of a non-empty directory name without `/` holds one
/// `/` and at least two characters.
proof fn lemma_route_segment_slash(name: Seq<char>)
    requires
        name.len() > 0,
        !name.contains('/'),
    ensures
        count_char(spec_route_segment(name), '/') == 1,
        spec_route_segment(name).len() >= 2,
{
    let slash: Seq<char> = seq!['/'];
    reveal_with_fuel(count_char, 4);
    assert(slash.drop_last() =~= Seq::<char>::empty());
    assert(count_char(slash, '/') == 1);
    let close: Seq<char> = seq!['}'];
    assert(close.drop_last() =~= Seq::<char>::empty());
    assert(count_char(close, '/') == 0);
    if is_bracketed(name) {
        let inner = bracket_inner(name);
        lemma_subrange_absent(name, 1, name.len() - 1, '/');
        let open: Seq<char> = if is_spread(inner) {
            seq!['/', '{', '*']
        } else {
            seq!['/', '{']
        };
        let body = if is_spread(inner) {
            inner.skip(3)
        } else {
            inner
        };
        if is_spread(inner) {
            lemma_subrange_absent(inner, 3, inner.len() as int, '/');
            assert(inner.skip(3) =~= inner.subrange(3, inner.len() as int));
            assert(open.drop_last() =~= seq!['/', '{']);
            assert(open.drop_last().drop_last() =~= seq!['/']);
            assert(open.drop_last().drop_last().drop_last() =~= Seq::<char>::empty());
        } else {
            assert(open.drop_last() =~= seq!['/']);
            assert(open.drop_last().drop_last() =~= Seq::<char>::empty());
        }
        assert(count_char(open, '/') == 1);
        lemma_count_absent(body, '/');
        lemma_count_concat(open, body, '/');
        lemma_count_concat(open + body, close, '/');
        assert(spec_route_segment(name) == open + body + close);
    } else {
        lemma_count_absent(name, '/');
        lemma_count_concat(slash, name, '/');
    }
}

/// The route pieces of non-empty directory names without `/` hold one `/`
/// each.
proof fn lemma_route_segments_slashes(dirs: Seq<Seq<char>>)
    requires
        forall|i: int| 0 <= i < dirs.len() ==> (#[trigger] dirs[i]).len() > 0 && !dirs[i].contains('/'),
    ensures
        count_char(route_segments_text(dirs), '/') == dirs.len(),
        dirs.len() > 0 ==> route_segments_text(dirs).len() >= 2,
    decreases dirs.len(),
{
    if dirs.len() > 0 {
        lemma_route_segments_slashes(dirs.drop_last());
        assert(dirs.last() == dirs[dirs.len() - 1]);
        lemma_route_segment_slash(dirs.last());
        lemma_count_concat(route_segments_text(dirs.drop_last()), spec_route_segment(dirs.last()), '/');
    }
}

/// For a path whose components are non-empty and hold no `/` (as the
/// components of a file path do), the route holds one `/` per directory,
/// and is `/` alone exactly for a `route.rs` with no directory in front.
pub proof fn lemma_route_path_slashes(components: Seq<Seq<char>>)
    requires
        forall|i: int|
            0 <= i < components.len() ==> (#[trigger] components[i]).len() > 0
                && !components[i].contains('/'),
    ensures
        count_char(spec_axum_path(components), '/') == if directories(components).len() == 0 {
            1
        } else {
            directories(components).len()
        },
        spec_axum_path(components) == seq!['/'] <==> directories(components).len() == 0,
{
    let dirs = directories(components);
    if dirs.len() == 0 {
        let slash: Seq<char> = seq!['/'];
        reveal_with_fuel(count_char, 2);
        assert(slash.drop_last() =~= Seq::<char>::empty());
        assert(count_char(slash, '/') == 1);
    } else {
        assert forall|i: int| 0 <= i < dirs.len() implies (#[trigger] dirs[i]).len() > 0
            && !dirs[i].contains('/') by {
            assert(dirs[i] == components[i]);
        }
        lemma_route_segments_slashes(dirs);
    }
}

/// The character that a simple escape (`\\`, `\"`, `\n`, `\r`, `\t`) stands for.
pub open spec fn simple_escape(c: char) -> Option<char> {
    if c == '\\' {
        Some('\\')
    } else if c == '"' {
        Some('"')
    } else if c == 'n' {
        Some('\n')
    } else if c == 'r' {
        Some('\r')
    } else if c == 't' {
        Some('\t')
    } else {
        None
    }
}

/// The value of an octal digit (the first digit of a `\x` escape).
pub open spec fn octal_digit(c: char) -> Option<int> {
    if '0' <= c && c <= '7' {
        Some(c as int - '0' as int)
    } else {
        None
    }
}

/// The value of a hexadecimal digit.
pub open spec fn hex_digit(c: char) -> Option<int> {
    if '0' <= c && c <= '9' {
        Some(c as int - '0' as int)
    } else if 'a' <= c && c <= 'f' {
        Some(c as int - 'a' as int + 10)
    } else if 'A' <= c && c <= 'F' {
        Some(c as int - 'A' as int + 10)
    } else {
        None
    }
}

/// The value of the body of a Rust string literal that uses the simple
/// escapes and `\xHH` escapes (the characters between the quotes).
pub open spec fn unescape(s: Seq<char>) -> Seq<char>
    decreases s.len(),
{
    if s.len() == 0 {
        Seq::empty()
    } else if s[0] == '\\' && s.len() >= 2 && simple_escape(s[1]) is Some {
        seq![simple_escape(s[1])->0] + unescape(s.skip(2))
    } else if s[0] == '\\' && s.len() >= 4 && s[1] == 'x' && octal_digit(s[2]) is Some
        && hex_digit(s[3]) is Some {
        seq![(octal_digit(s[2])->0 * 16 + hex_digit(s[3])->0) as char] + unescape(s.skip(4))
    } else {
        seq![s[0]] + unescape(s.drop_first())
    }
}

/// Decoding an escaped character, then the rest.
proof fn lemma_unescape_char(c: char, rest: Seq<char>)
    ensures
        unescape(escape_char(c) + rest) == seq![c] + unescape(rest),
{
    let t = escape_char(c) + rest;
    if c == '\\' || c == '"' || c == '\n' || c == '\r' || c == '\t' {
        assert(t.skip(2) =~= rest);
    } else if c == '\0' {
        assert(t.skip(4) =~= rest);
        assert(((0int * 16 + 0int) as char) == '\0');
    } else {
        assert(t.drop_first() =~= rest);
    }
}

/// Decoding an escaped text followed by anything.
proof fn lemma_unescape_prefix(s: Seq<char>, rest: Seq<char>)
    ensures
        unescape(escape_text(s) + rest) == s + unescape(rest),
    decreases s.len(),
{
    if s.len() == 0 {
        assert(escape_text(s) + rest =~= rest);
        assert(s + unescape(rest) =~= unescape(rest));
    } else {
        let init = s.drop_last();
        let c = s.last();
        lemma_unescape_char(c, rest);
        lemma_unescape_prefix(init, escape_char(c) + rest);
        assert(escape_text(s) + rest =~= escape_text(init) + (escape_char(c) + rest));
        assert(init + (seq![c] + unescape(rest)) =~= s + unescape(rest));
    }
}

/// The string literal written for a text (a route path, the route
/// directory) is quoted and has that text as its value.
pub proof fn lemma_string_literal_value(s: Seq<char>)
    ensures
        string_literal(s).len() >= 2,
        string_literal(s)[0] == '"',
        string_literal(s)[string_literal(s).len() - 1] == '"',
        unescape(string_literal(s).subrange(1, string_literal(s).len() - 1)) == s,
{
    let lit = string_literal(s);
    assert(lit.subrange(1, lit.len() - 1) =~= escape_text(s) + Seq::<char>::empty());
    lemma_unescape_prefix(s, Seq::empty());
    assert(s + unescape(Seq::<char>::empty()) =~= s);
}

} // verus!
