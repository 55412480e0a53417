use axum_folder_router::generate::{
    generate_mod_path_tokens, invalid_module_name, module_tree, normalize_module_name,
    path_to_module_path, route_registrations, router_impl,
};
use axum_folder_router::ident::{check_identifier, identifier_problem_of, IdentProblem};
use axum_folder_router::order::{path_less, text_less};
use axum_folder_router::parse::{
    methods_for_route, methods_in_items, sort_route_files, FolderRouterArgs, FolderRouterItem,
    FolderRouterRoutes, RouteFile, TopItem,
};
use axum_folder_router::{folder_router_expansion, Expansion};

fn comps(parts: &[&str]) -> Vec<String> {
    parts.iter().map(|p| p.to_string()).collect()
}

fn file(parts: &[&str], source: Option<&str>) -> RouteFile {
    RouteFile::from_source(comps(parts), source)
}

const GET_POST: &str = "pub async fn get() {}\npub async fn post() {}\n";
const NO_MODULE: &str = "mod";

fn item(name: &str) -> FolderRouterItem {
    FolderRouterItem::new(name.to_string())
}

fn args(path: &str, state: &str) -> FolderRouterArgs {
    FolderRouterArgs::new(path.to_string(), state.to_string())
}

#[test]
fn normalize_plain_names() {
    assert_eq!(normalize_module_name("users"), "users");
    assert_eq!(normalize_module_name("my-dir.v2"), "my_dir_v2");
    assert_eq!(normalize_module_name(""), "");
}

#[test]
fn normalize_parameter_names() {
    assert_eq!(normalize_module_name("[id]"), "__id");
    assert_eq!(normalize_module_name("[...path]"), "___path");
    assert_eq!(normalize_module_name("[]"), "__");
    assert_eq!(normalize_module_name("[...]"), "___");
    assert_eq!(normalize_module_name("[a-b]"), "__a-b");
    assert_eq!(normalize_module_name("[..x]"), "__..x");
}

#[test]
fn normalize_lone_brackets() {
    assert_eq!(normalize_module_name("["), "[");
    assert_eq!(normalize_module_name("]"), "]");
    assert_eq!(normalize_module_name("[x"), "[x");
}

#[test]
fn root_route() {
    assert_eq!(path_to_module_path(&comps(&["route.rs"])), ("/".to_string(), vec![]));
    assert_eq!(path_to_module_path(&comps(&[])), ("/".to_string(), vec![]));
}

#[test]
fn folder_structure_routes() {
    assert_eq!(
        path_to_module_path(&comps(&["hello", "route.rs"])),
        ("/hello".to_string(), comps(&["hello"]))
    );
    assert_eq!(
        path_to_module_path(&comps(&["users", "route.rs"])),
        ("/users".to_string(), comps(&["users"]))
    );
    assert_eq!(
        path_to_module_path(&comps(&["users", "[id]", "route.rs"])),
        ("/users/{id}".to_string(), comps(&["users", "__id"]))
    );
    assert_eq!(
        path_to_module_path(&comps(&["files", "[...path]", "route.rs"])),
        ("/files/{*path}".to_string(), comps(&["files", "___path"]))
    );
    assert_eq!(
        path_to_module_path(&comps(&["api-v1", "my.items", "route.rs"])),
        ("/api-v1/my.items".to_string(), comps(&["api_v1", "my_items"]))
    );
}

#[test]
fn mod_path_tokens() {
    assert_eq!(generate_mod_path_tokens(&comps(&[])), "");
    assert_eq!(generate_mod_path_tokens(&comps(&["files"])), "::files");
    assert_eq!(generate_mod_path_tokens(&comps(&["files", "___path"])), "::files::___path");
}

#[test]
fn methods_only_pub_async() {
    let source = "pub async fn get() {}\nfn post() {}\npub fn put() {}\nasync fn delete() {}\n\
                  pub async fn helper() {}\npub(crate) async fn patch() {}\n";
    assert_eq!(methods_for_route(Some(source)), vec!["get"]);
}

#[test]
fn methods_in_fixed_order() {
    let source = "pub async fn connect() {}\npub async fn post() {}\npub async fn any() {}\n\
                  pub async fn get() {}\npub async fn trace() {}\npub async fn options() {}\n\
                  pub async fn head() {}\npub async fn patch() {}\npub async fn delete() {}\n\
                  pub async fn put() {}\n";
    assert_eq!(
        methods_for_route(Some(source)),
        vec!["any", "get", "post", "put", "delete", "patch", "head", "options", "trace", "connect"]
    );
}

#[test]
fn methods_of_unreadable_or_invalid_file() {
    assert_eq!(methods_for_route(None), Vec::<&str>::new());
    assert_eq!(methods_for_route(Some(NO_MODULE)), Vec::<&str>::new());
    assert_eq!(methods_for_route(Some("")), Vec::<&str>::new());
}

#[test]
fn methods_ignore_nested_functions() {
    let source = "mod inner { pub async fn get() {} }\nimpl X { pub async fn post() {} }\n";
    assert_eq!(methods_for_route(Some(source)), Vec::<&str>::new());
}

#[test]
fn methods_from_items() {
    let items = vec![
        TopItem::Function { name: "post".to_string(), is_public: true, is_async: true },
        TopItem::Other,
        TopItem::Function { name: "get".to_string(), is_public: true, is_async: false },
        TopItem::Function { name: "any".to_string(), is_public: true, is_async: true },
        TopItem::Function { name: "any".to_string(), is_public: true, is_async: true },
        TopItem::Function { name: "put".to_string(), is_public: false, is_async: true },
        TopItem::Function { name: "fetch".to_string(), is_public: true, is_async: true },
    ];
    assert_eq!(methods_in_items(&items), vec!["any", "post"]);
}

#[test]
fn namespace_of_struct() {
    assert_eq!(item("MyFolderRouter").module_namespace(), "__folder_router__myfolderrouter");
    assert_eq!(item("Api_V2").module_namespace(), "__folder_router__api_v2");
    assert_eq!(item("Über").module_namespace(), "__folder_router__Über");
    assert_eq!(item("MyFolderRouter").struct_name(), "MyFolderRouter");
}

#[test]
fn text_order() {
    assert!(text_less("files", "route.rs"));
    assert!(text_less("[...path]", "route.rs"));
    assert!(text_less("ab", "abc"));
    assert!(!text_less("abc", "ab"));
    assert!(!text_less("x", "x"));
    assert!(text_less("Z", "a"));
}

#[test]
fn path_order() {
    assert!(path_less(&comps(&["files", "route.rs"]), &comps(&["route.rs"])));
    assert!(path_less(&comps(&["files"]), &comps(&["files", "route.rs"])));
    assert!(!path_less(&comps(&["route.rs"]), &comps(&["route.rs"])));
    assert!(!path_less(&comps(&["users", "route.rs"]), &comps(&["ping", "route.rs"])));
}

fn advanced_files() -> Vec<RouteFile> {
    vec![
        file(&["users", "route.rs"], Some(GET_POST)),
        file(&["route.rs"], Some(GET_POST)),
        file(&["users", "[id]", "route.rs"], Some("pub async fn get() {}")),
        file(&["ping", "route.rs"], Some("pub async fn get() {}\npub async fn any() {}")),
        file(&["files", "route.rs"], Some(GET_POST)),
        file(&["files", "[...path]", "route.rs"], Some("pub async fn get() {}")),
    ]
}

fn rel_paths(files: &[RouteFile]) -> Vec<Vec<String>> {
    files.iter().map(|f| f.rel_path().clone()).collect()
}

#[test]
fn sorted_route_files() {
    let sorted = sort_route_files(advanced_files());
    assert_eq!(
        rel_paths(&sorted),
        vec![
            comps(&["files", "[...path]", "route.rs"]),
            comps(&["files", "route.rs"]),
            comps(&["ping", "route.rs"]),
            comps(&["route.rs"]),
            comps(&["users", "[id]", "route.rs"]),
            comps(&["users", "route.rs"]),
        ]
    );
    assert_eq!(sort_route_files(vec![]).len(), 0);
}

#[test]
fn no_route_files_error() {
    let mut errors = vec!["earlier".to_string()];
    let routes = FolderRouterRoutes::parse_from_path(&mut errors, "/some/dir", vec![]);
    assert_eq!(routes.routes().len(), 0);
    assert_eq!(
        errors,
        vec![
            "earlier".to_string(),
            "No route.rs files found in the specified directory: '/some/dir'. Make sure the path is correct and contains route.rs files.".to_string(),
        ]
    );
}

#[test]
fn route_files_no_error() {
    let mut errors = Vec::new();
    let routes = FolderRouterRoutes::parse_from_path(&mut errors, "/d", advanced_files());
    assert!(errors.is_empty());
    assert_eq!(routes.routes().len(), 6);
    assert_eq!(*routes.routes()[0].rel_path(), comps(&["files", "[...path]", "route.rs"]));
}

#[test]
fn manifest_dir_default_and_plain() {
    assert_eq!(FolderRouterArgs::get_manifest_dir(None), "./");
    assert_eq!(FolderRouterArgs::get_manifest_dir(Some("/home/me/app".to_string())), "/home/me/app");
}

#[test]
fn manifest_dir_of_test_build() {
    let hash = "a".repeat(42);
    let dir = format!("/home/me/app/target/tests/axum-folder-router/{hash}");
    assert_eq!(FolderRouterArgs::get_manifest_dir(Some(dir)), "/home/me/app");
    let short = format!("/home/me/app/target/tests/axum-folder-router/{}", "a".repeat(41));
    assert_eq!(FolderRouterArgs::get_manifest_dir(Some(short.clone())), short);
    let odd = format!("/home/me/app/target/tests/axum-folder-router/{}-", "a".repeat(41));
    assert_eq!(FolderRouterArgs::get_manifest_dir(Some(odd.clone())), odd);
}

#[test]
fn registrations_of_advanced_example() {
    let mut errors = Vec::new();
    let routes = FolderRouterRoutes::parse_from_path(&mut errors, "/d", advanced_files());
    let text = route_registrations("__folder_router__r", &routes);
    let expected = [
        "router = router.route(\"/files/{*path}\", axum::routing::get(__folder_router::__folder_router__r::files::___path::get));",
        "router = router.route(\"/files\", axum::routing::get(__folder_router::__folder_router__r::files::get).post(__folder_router::__folder_router__r::files::post));",
        "router = router.route(\"/ping\", axum::routing::any(__folder_router::__folder_router__r::ping::any).get(__folder_router::__folder_router__r::ping::get));",
        "router = router.route(\"/\", axum::routing::get(__folder_router::__folder_router__r::get).post(__folder_router::__folder_router__r::post));",
        "router = router.route(\"/users/{id}\", axum::routing::get(__folder_router::__folder_router__r::users::__id::get));",
        "router = router.route(\"/users\", axum::routing::get(__folder_router::__folder_router__r::users::get).post(__folder_router::__folder_router__r::users::post));",
    ]
    .join("");
    assert_eq!(text, expected);
}

#[test]
fn registrations_skip_files_without_handlers() {
    let mut errors = Vec::new();
    let files = vec![
        file(&["a", "route.rs"], Some("fn get() {}")),
        file(&["b", "route.rs"], None),
        file(&["c", "route.rs"], Some("pub async fn get() {}")),
    ];
    let routes = FolderRouterRoutes::parse_from_path(&mut errors, "/d", files);
    assert_eq!(
        route_registrations("ns", &routes),
        "router = router.route(\"/c\", axum::routing::get(__folder_router::ns::c::get));"
    );
}

#[test]
fn router_impl_text_and_no_error() {
    let mut errors = Vec::new();
    let routes = FolderRouterRoutes::parse_from_path(
        &mut errors,
        "/d",
        vec![file(&["route.rs"], Some("pub async fn get() {}"))],
    );
    let text = router_impl(&mut errors, &args("api", "AppState"), &item("MyRouter"), &routes);
    assert_eq!(
        text,
        "impl MyRouter { pub fn into_router() -> axum::Router<AppState> { let mut router = axum::Router::new(); router = router.route(\"/\", axum::routing::get(__folder_router::__folder_router__myrouter::get)); router } }"
    );
    assert!(errors.is_empty());
    let parsed: syn::ItemImpl = syn::parse_str(&text).unwrap();
    assert_eq!(parsed.items.len(), 1);
}

#[test]
fn router_impl_without_handlers_reports_error() {
    let mut errors = Vec::new();
    let routes = FolderRouterRoutes::parse_from_path(
        &mut errors,
        "/d",
        vec![file(&["route.rs"], Some("pub fn get() {}"))],
    );
    let text = router_impl(&mut errors, &args("api", "S"), &item("R"), &routes);
    assert_eq!(
        text,
        "impl R { pub fn into_router() -> axum::Router<S> { let mut router = axum::Router::new();  router } }"
    );
    assert_eq!(
        errors,
        vec!["No methods defined in your files!\nEnsure that at least one `pub async fn` named after an HTTP verb is defined. (e.g. get, post, put, delete)".to_string()]
    );
}

#[test]
fn module_tree_text() {
    assert_eq!(
        module_tree("/home/me/api", &item("MyFolderRouter")),
        "pub(crate) mod __folder_router { #[path = \"/home/me/api\"] pub(crate) mod __folder_router__myfolderrouter; }"
    );
}

#[test]
fn module_tree_escapes_path() {
    let text = module_tree("/a\"b\\c\nd\te\r\0", &item("R"));
    assert_eq!(
        text,
        "pub(crate) mod __folder_router { #[path = \"/a\\\"b\\\\c\\nd\\te\\r\\x00\"] pub(crate) mod __folder_router__r; }"
    );
    let parsed: syn::File = syn::parse_str(&text).unwrap();
    let printed = format!("{:?}", parsed.items.len());
    assert_eq!(printed, "1");
}

#[test]
fn string_literal_round_trip() {
    let dir = "/x\"y\\z\n\t\r\0'é";
    let text = module_tree(dir, &item("R"));
    let parsed: syn::File = syn::parse_str(&text).unwrap();
    let syn::Item::Mod(outer) = &parsed.items[0] else { panic!("not a module") };
    let (_, inner) = outer.content.as_ref().unwrap();
    let syn::Item::Mod(inner_mod) = &inner[0] else { panic!("not a module") };
    let attr = &inner_mod.attrs[0];
    let syn::Meta::NameValue(nv) = &attr.meta else { panic!("not name = value") };
    let syn::Expr::Lit(lit) = &nv.value else { panic!("not a literal") };
    let syn::Lit::Str(s) = &lit.lit else { panic!("not a string") };
    assert_eq!(s.value(), dir);
}

fn expand(found: Vec<RouteFile>) -> Expansion {
    folder_router_expansion(&args("api", "AppState"), &item("MyFolderRouter"), "/abs/api", found)
        .ok()
        .unwrap()
}

fn expand_err(found: Vec<RouteFile>) -> String {
    match folder_router_expansion(&args("api", "S"), &item("R"), "/abs/api", found) {
        Ok(_) => panic!("expected an invalid module name"),
        Err(name) => name,
    }
}

#[test]
fn identifiers() {
    assert!(check_identifier("users"));
    assert!(check_identifier("__id"));
    assert!(check_identifier("_"));
    assert!(check_identifier("r#type"));
    assert!(check_identifier("données"));
    assert!(!check_identifier(""));
    assert!(!check_identifier("2024"));
    assert!(!check_identifier("1st"));
    assert!(!check_identifier("__a-b"));
    assert!(!check_identifier("my dir"));
    assert!(!check_identifier("r#self"));
    assert!(!check_identifier("r#_"));
    assert!(!check_identifier("r#"));
}

#[test]
fn invalid_module_names_stop_expansion() {
    let name = expand_err(vec![
        file(&["ok", "route.rs"], Some("pub async fn get() {}")),
        file(&["2024", "[a-b]", "route.rs"], Some("pub async fn get() {}")),
    ]);
    assert_eq!(name, "2024");
    let name = expand_err(vec![file(&["x", "[a-b]", "route.rs"], Some("pub async fn get() {}"))]);
    assert_eq!(name, "__a-b");
}

#[test]
fn invalid_module_names_without_handlers_are_not_written() {
    let e = folder_router_expansion(
        &args("api", "S"),
        &item("R"),
        "/abs/api",
        vec![
            file(&["my dir", "route.rs"], Some("fn get() {}")),
            file(&["ok", "route.rs"], Some("pub async fn get() {}")),
        ],
    );
    assert!(e.is_ok());
}

#[test]
fn first_invalid_module_in_route_order() {
    let mut errors = Vec::new();
    let routes = FolderRouterRoutes::parse_from_path(
        &mut errors,
        "/d",
        vec![
            file(&["b b", "route.rs"], Some("pub async fn get() {}")),
            file(&["a a", "route.rs"], Some("pub async fn get() {}")),
        ],
    );
    assert_eq!(invalid_module_name(&routes), Some("a a".to_string()));
}

#[test]
fn expansion_without_files() {
    let e = expand(vec![]);
    assert_eq!(e.errors.len(), 2);
    assert!(e.errors[0].starts_with("No route.rs files found in the specified directory: '/abs/api'"));
    assert!(e.errors[1].starts_with("No methods defined in your files!"));
}

#[test]
fn expansion_with_files_without_handlers() {
    let e = expand(vec![file(&["route.rs"], Some("fn get() {}"))]);
    assert_eq!(e.errors.len(), 1);
    assert!(e.errors[0].starts_with("No methods defined"));
}

#[test]
fn expansion_of_advanced_example() {
    let e = expand(advanced_files());
    assert!(e.errors.is_empty());
    assert_eq!(rel_paths(e.routes.routes()).len(), 6);
    assert!(e.router_impl.starts_with("impl MyFolderRouter { pub fn into_router() -> axum::Router<AppState> {"));
    assert!(e.router_impl.contains(
        "router = router.route(\"/users/{id}\", axum::routing::get(__folder_router::__folder_router__myfolderrouter::users::__id::get));"
    ));
    let _: syn::ItemImpl = syn::parse_str(&e.router_impl).unwrap();
    let _: syn::File = syn::parse_str(&e.module_tree).unwrap();
}

#[test]
fn non_ascii_order_by_code_point() {
    assert!(text_less("z", "é"));
    assert!(!text_less("é", "z"));
    let sorted = sort_route_files(vec![
        file(&["é", "route.rs"], None),
        file(&["z", "route.rs"], None),
        file(&["Z", "route.rs"], None),
    ]);
    assert_eq!(
        rel_paths(&sorted),
        vec![comps(&["Z", "route.rs"]), comps(&["z", "route.rs"]), comps(&["é", "route.rs"])]
    );
}

#[test]
fn dotted_plain_names() {
    assert_eq!(
        path_to_module_path(&comps(&["...x", "route.rs"])),
        ("/...x".to_string(), comps(&["___x"]))
    );
}

#[test]
fn route_paths_start_with_slash() {
    for parts in [&["route.rs"][..], &["a", "route.rs"], &["[x]", "route.rs"], &["[...y]", "z", "route.rs"]] {
        let (route, modules) = path_to_module_path(&comps(parts));
        assert!(route.starts_with('/'));
        assert_eq!(modules.len(), parts.len() - 1);
    }
}

#[test]
fn namespace_has_no_capitals() {
    let ns = item("HTTP_Router2").module_namespace();
    assert_eq!(ns, "__folder_router__http_router2");
    assert!(!ns["__folder_router__".len()..].chars().any(|c| c.is_ascii_uppercase()));
}

#[test]
fn identifier_problems() {
    assert_eq!(identifier_problem_of("users"), None);
    assert_eq!(identifier_problem_of(""), Some(IdentProblem::Empty));
    assert_eq!(identifier_problem_of("2024"), Some(IdentProblem::Number));
    assert_eq!(identifier_problem_of("1st"), Some(IdentProblem::Invalid));
    assert_eq!(identifier_problem_of("__a-b"), Some(IdentProblem::Invalid));
    assert_eq!(identifier_problem_of("r#self"), Some(IdentProblem::ReservedRaw));
    assert_eq!(identifier_problem_of("r#"), Some(IdentProblem::Empty));
    assert_eq!(identifier_problem_of("r#12"), Some(IdentProblem::Number));
    assert_eq!(identifier_problem_of("r#type"), None);
}

#[test]
fn route_file_methods_recorded() {
    let f = file(&["users", "route.rs"], Some(GET_POST));
    assert_eq!(*f.methods(), vec!["get", "post"]);
    let g = file(&["users", "route.rs"], None);
    assert!(g.methods().is_empty());
}

#[test]
fn any_opens_the_method_chain() {
    let ms = methods_for_route(Some("pub async fn post() {}\npub async fn any() {}\npub async fn get() {}"));
    assert_eq!(ms, vec!["any", "get", "post"]);
    let mut errors = Vec::new();
    let routes = FolderRouterRoutes::parse_from_path(
        &mut errors,
        "/d",
        vec![file(&["p", "route.rs"], Some("pub async fn post() {}\npub async fn any() {}"))],
    );
    let text = route_registrations("ns", &routes);
    assert!(text.contains("axum::routing::any(__folder_router::ns::p::any).post("));
    assert!(!text.contains(".any("));
}

#[test]
fn distinct_paths_strictly_ascending() {
    let sorted = sort_route_files(advanced_files());
    for w in sorted.windows(2) {
        assert!(path_less(w[0].rel_path(), w[1].rel_path()));
    }
}

#[test]
fn route_slash_count() {
    for parts in [
        &["route.rs"][..],
        &["a", "route.rs"],
        &["a", "[b]", "[...c]", "route.rs"],
    ] {
        let (route, _) = path_to_module_path(&comps(parts));
        let dirs = parts.len() - 1;
        assert_eq!(route.matches('/').count(), dirs.max(1));
        assert_eq!(route == "/", dirs == 0);
    }
}

#[test]
fn distinct_namespaces_for_ascii_names() {
    assert_ne!(item("ApiRouter").module_namespace(), item("AdminRouter").module_namespace());
    assert_eq!(item("Router").module_namespace(), item("router").module_namespace());
}

#[test]
fn manifest_dir_capture_rules() {
    let tail = format!("/target/tests/axum-folder-router/{}", "A1".repeat(21));
    assert_eq!(FolderRouterArgs::get_manifest_dir(Some(format!("x{tail}"))), "x");
    assert_eq!(FolderRouterArgs::get_manifest_dir(Some(tail.clone())), tail);
    let newline = format!("a\nb{tail}");
    assert_eq!(FolderRouterArgs::get_manifest_dir(Some(newline.clone())), newline);
    let nested = format!("/r/target/tests/axum-folder-router/x{tail}");
    assert_eq!(FolderRouterArgs::get_manifest_dir(Some(nested)), "/r/target/tests/axum-folder-router/x");
    let non_ascii = format!("/home/{}", "é".repeat(1)) + &tail;
    assert_eq!(FolderRouterArgs::get_manifest_dir(Some(non_ascii)), "/home/é");
}

#[test]
fn route_file_from_items() {
    let items = vec![
        TopItem::Function { name: "post".to_string(), is_public: true, is_async: true },
        TopItem::Function { name: "any".to_string(), is_public: true, is_async: true },
    ];
    let f = RouteFile::from_items(comps(&["x", "route.rs"]), &items);
    assert_eq!(*f.methods(), vec!["any", "post"]);
    assert_eq!(*f.rel_path(), comps(&["x", "route.rs"]));
}

#[test]
fn expansion_output_order() {
    let e = expand(vec![file(&["route.rs"], Some("fn get() {}"))]);
    let expected = format!(
        "compile_error!(\"No methods defined in your files!\\nEnsure that at least one `pub async fn` named after an HTTP verb is defined. (e.g. get, post, put, delete)\");{}{}",
        e.module_tree, e.router_impl
    );
    assert_eq!(e.output, expected);
    let f: syn::File = syn::parse_str(&e.output).unwrap();
    assert_eq!(f.items.len(), 3);
}

#[test]
fn expansion_output_without_errors() {
    let e = expand(advanced_files());
    assert_eq!(e.output, format!("{}{}", e.module_tree, e.router_impl));
}
