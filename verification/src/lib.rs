//! Folder-based route planning for Axum routers.
//!
//! `#[folder_router("path", State)]` turns a directory tree of `route.rs`
//! files into a router: each `route.rs` becomes a route whose path follows
//! its directories (`[id]` is a path parameter, `[...rest]` a catch-all),
//! and each `pub async fn` named after an HTTP method becomes that method's
//! handler. This crate computes the generated source text from the
//! directory listing and the files' texts.

pub mod generate;
pub mod ident;
pub mod order;
pub mod parse;
mod text;

use vstd::prelude::*;

use crate::generate::{
    compile_errors, compile_errors_text, all_route_modules_valid, first_invalid_module, invalid_module_name, module_tree,
    module_tree_text, no_methods_message, registrations_text, route_modules_valid, router_impl,
    router_impl_text,
};
use crate::parse::{
    all_method_lists, no_routes_message, route_views, sorted_by_path, spec_module_namespace,
    FolderRouterArgs, FolderRouterItem, FolderRouterRoutes, RouteFile,
};

verus! {

/// What the attribute adds after the struct it is attached to.
pub struct Expansion {
    /// The errors to report, in order; each becomes a `compile_error!`.
    pub errors: Vec<String>,
    /// The route files, in registration order.
    pub routes: FolderRouterRoutes,
    /// The module declarations that load the route directory.
    pub module_tree: String,
    /// The `into_router` implementation.
    pub router_impl: String,
    /// Everything that follows the struct, in order: the errors as
    /// `compile_error!` statements, the module tree, the router
    /// implementation.
    pub output: String,
}

/// No route file declares a handler.
pub open spec fn no_handlers(files: Seq<RouteFile>) -> bool {
    forall|i: int| 0 <= i < files.len() ==> (#[trigger] files[i]@).1.len() == 0
}

/// The errors of an expansion: one when no route file was found, then one
/// when no route file declares a handler.
pub open spec fn expansion_errors(base_dir: Seq<char>, found: Seq<RouteFile>) -> Seq<Seq<char>> {
    let first: Seq<Seq<char>> = if found.len() == 0 {
        seq![no_routes_message(base_dir)]
    } else {
        Seq::empty()
    };
    if no_handlers(found) {
        first.push(no_methods_message())
    } else {
        first
    }
}

/// The registrations are empty exactly when no route file declares a
/// handler.
pub proof fn lemma_registrations_empty(ns: Seq<char>, files: Seq<RouteFile>)
    ensures
        registrations_text(ns, files.map_values(|f: RouteFile| f@)).len() == 0 <==> no_handlers(
            files,
        ),
    decreases files.len(),
{
    let views = files.map_values(|f: RouteFile| f@);
    if files.len() > 0 {
        let rest = files.drop_last();
        lemma_registrations_empty(ns, rest);
        assert(views.drop_last() =~= rest.map_values(|f: RouteFile| f@));
        assert(views.last() == files.last()@);
        if no_handlers(rest) && files.last()@.1.len() == 0 {
            assert forall|i: int| 0 <= i < files.len() implies (#[trigger] files[i]@).1.len()
                == 0 by {
                if i < files.len() - 1 {
                    assert(files[i] == rest[i]);
                }
            }
        }
        if no_handlers(files) {
            assert forall|i: int| 0 <= i < rest.len() implies (#[trigger] rest[i]@).1.len()
                == 0 by {
                assert(files[i] == rest[i]);
            }
            assert(files[files.len() - 1]@.1.len() == 0);
        }
    }
}

/// Whether every file satisfies a property does not depend on the files'
/// order.
proof fn lemma_forall_permutation(
    a: Seq<RouteFile>,
    b: Seq<RouteFile>,
    p: spec_fn(RouteFile) -> bool,
)
    requires
        a.to_multiset() == b.to_multiset(),
    ensures
        (forall|i: int| 0 <= i < a.len() ==> p(#[trigger] a[i])) <==> (forall|i: int|
            0 <= i < b.len() ==> p(#[trigger] b[i])),
{
    if (forall|i: int| 0 <= i < a.len() ==> p(#[trigger] a[i])) {
        assert forall|i: int| 0 <= i < b.len() implies p(#[trigger] b[i]) by {
            vstd::seq_lib::to_multiset_contains(b, b[i]);
            vstd::seq_lib::to_multiset_contains(a, b[i]);
            assert(b.contains(b[i]));
            let j = choose|j: int| 0 <= j < a.len() && a[j] == b[i];
            assert(p(a[j]));
        }
    }
    if (forall|i: int| 0 <= i < b.len() ==> p(#[trigger] b[i])) {
        assert forall|i: int| 0 <= i < a.len() implies p(#[trigger] a[i]) by {
            vstd::seq_lib::to_multiset_contains(a, a[i]);
            vstd::seq_lib::to_multiset_contains(b, a[i]);
            assert(a.contains(a[i]));
            let j = choose|j: int| 0 <= j < b.len() && b[j] == a[i];
            assert(p(b[j]));
        }
    }
}

/// Whether some file declares a handler does not depend on the files'
/// order.
proof fn lemma_no_handlers_permutation(a: Seq<RouteFile>, b: Seq<RouteFile>)
    requires
        a.to_multiset() == b.to_multiset(),
    ensures
        no_handlers(a) <==> no_handlers(b),
{
    let p = |f: RouteFile| f@.1.len() == 0;
    lemma_forall_permutation(a, b, p);
    assert(no_handlers(a) <==> (forall|i: int| 0 <= i < a.len() ==> p(#[trigger] a[i])));
    assert(no_handlers(b) <==> (forall|i: int| 0 <= i < b.len() ==> p(#[trigger] b[i])));
}

/// Whether every written module name is an identifier does not depend on
/// the files' order.
proof fn lemma_modules_valid_permutation(a: Seq<RouteFile>, b: Seq<RouteFile>)
    requires
        a.to_multiset() == b.to_multiset(),
    ensures
        all_route_modules_valid(a.map_values(|f: RouteFile| f@)) <==> all_route_modules_valid(
            b.map_values(|f: RouteFile| f@),
        ),
{
    let p = |f: RouteFile| route_modules_valid(f@);
    lemma_forall_permutation(a, b, p);
    let av = a.map_values(|f: RouteFile| f@);
    let bv = b.map_values(|f: RouteFile| f@);
    assert(all_route_modules_valid(av) <==> (forall|i: int| 0 <= i < a.len() ==> p(#[trigger] a[i])))
        by {
        if all_route_modules_valid(av) {
            assert forall|i: int| 0 <= i < a.len() implies p(#[trigger] a[i]) by {
                assert(av[i] == a[i]@);
            }
        }
        if forall|i: int| 0 <= i < a.len() ==> p(#[trigger] a[i]) {
            assert forall|i: int| 0 <= i < av.len() implies route_modules_valid(#[trigger] av[i]) by {
                assert(av[i] == a[i]@);
                assert(p(a[i]));
            }
        }
    }
    assert(all_route_modules_valid(bv) <==> (forall|i: int| 0 <= i < b.len() ==> p(#[trigger] b[i])))
        by {
        if all_route_modules_valid(bv) {
            assert forall|i: int| 0 <= i < b.len() implies p(#[trigger] b[i]) by {
                assert(bv[i] == b[i]@);
            }
        }
        if forall|i: int| 0 <= i < b.len() ==> p(#[trigger] b[i]) {
            assert forall|i: int| 0 <= i < bv.len() implies route_modules_valid(#[trigger] bv[i]) by {
                assert(bv[i] == b[i]@);
                assert(p(b[i]));
            }
        }
    }
}

/// Expands `#[folder_router(..)]` on the struct `item`, given the absolute
/// route directory `base_dir` and the `route.rs` files found under it: the
/// route files in path order, the module tree, the router implementation,
/// the errors (one when no route file was found, one when no route file
/// declares a handler), and the text that follows the re-emitted struct:
/// the errors, then the module tree, then the router implementation.
///
/// Where a module name that the router would name is not an identifier,
/// which `format_ident!` refuses, the result is that module name instead:
/// the first one in route order.
pub fn folder_router_expansion(
    args: &FolderRouterArgs,
    item: &FolderRouterItem,
    base_dir: &str,
    found: Vec<RouteFile>,
) -> (res: Result<Expansion, String>)
    ensures
        res is Ok <==> all_route_modules_valid(found@.map_values(|f: RouteFile| f@)),
        match res {
            Ok(e) => {
                &&& e.routes.files().to_multiset() == found@.to_multiset()
                &&& sorted_by_path(e.routes.files())
                &&& e.module_tree@ == module_tree_text(
                    base_dir@,
                    spec_module_namespace(item.ident_view()),
                )
                &&& e.router_impl@ == router_impl_text(
                    item.ident_view(),
                    args.state_type@,
                    registrations_text(spec_module_namespace(item.ident_view()), e.routes@),
                )
                &&& e.errors.deep_view() == expansion_errors(base_dir@, found@)
                &&& e.output@ == compile_errors_text(e.errors.deep_view()) + e.module_tree@
                    + e.router_impl@
                &&& all_method_lists(e.routes.files())
            },
            Err(name) => exists|files: Seq<RouteFile>|
                {
                    &&& files.to_multiset() == found@.to_multiset()
                    &&& sorted_by_path(files)
                    &&& #[trigger] first_invalid_module(route_views(files)) == Some(name@)
                },
        },
{
    let ghost found_files = found@;
    let mut errors: Vec<String> = Vec::new();
    let routes = FolderRouterRoutes::parse_from_path(&mut errors, base_dir, found);
    proof {
        lemma_modules_valid_permutation(routes.files(), found_files);
    }
    match invalid_module_name(&routes) {
        Some(name) => {
            assert(route_views(routes.files()) =~= routes@);
            assert(first_invalid_module(route_views(routes.files())) == Some(name@));
            return Err(name);
        },
        None => {},
    }
    let tree = module_tree(base_dir, item);
    let ghost mid = errors.deep_view();
    let router = router_impl(&mut errors, args, item, &routes);
    proof {
        lemma_registrations_empty(spec_module_namespace(item.ident_view()), routes.files());
        lemma_no_handlers_permutation(routes.files(), found_files);
        let first: Seq<Seq<char>> = if found_files.len() == 0 {
            seq![no_routes_message(base_dir@)]
        } else {
            Seq::empty()
        };
        assert(mid =~= first);
    }
    let mut output = compile_errors(&errors);
    output.append(tree.as_str());
    output.append(router.as_str());
    Ok(Expansion { errors, routes, module_tree: tree, router_impl: router, output })
}

} // verus!
