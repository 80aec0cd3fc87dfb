//! Request handling decisions of the "hello" web components that do not
//! depend on the host: which page a path asks for, and the request method's name.
use vstd::prelude::*;
use vstd::string::*;

verus! {

/// What a request to the `fly-hello` component asks for.
pub enum Route {
    /// The page with the visit counts.
    Index,
    /// The static asset of that name.
    Asset(String),
}

/// What a [`Route`] asks for, as text.
pub enum RouteView {
    Index,
    Asset(Seq<char>),
}

impl View for Route {
    type V = RouteView;

    open spec fn view(&self) -> RouteView {
        match self {
            Route::Index => RouteView::Index,
            Route::Asset(name) => RouteView::Asset(name@),
        }
    }
}

/// The paths of the page with the visit counts.
pub open spec fn is_index_path(p: Seq<char>) -> bool {
    p == "/"@ || p == "/index.html"@
}

/// The paths that the component can answer: the page's, and those that start with `/`.
pub open spec fn routable(p: Seq<char>) -> bool {
    is_index_path(p) || (p.len() > 0 && p[0] == '/')
}

/// What a path asks for: the page, or the asset named by the path without its leading `/`.
pub open spec fn route_spec(p: Seq<char>) -> RouteView {
    if is_index_path(p) {
        RouteView::Index
    } else {
        RouteView::Asset(p.drop_first())
    }
}

/// A path asks for the page exactly when it is `/` or `/index.html`; any
/// other path that starts with `/` asks for the asset whose name is the rest
/// of the path, so that `/` followed by the name gives the path back.
pub proof fn lemma_route_names_path(p: Seq<char>)
    ensures
        route_spec(p) is Index <==> (p == "/"@ || p == "/index.html"@),
        (!is_index_path(p) && p.len() > 0 && p[0] == '/') ==> (route_spec(p) matches RouteView::Asset(n)
            && seq!['/'] + n == p && n.len() + 1 == p.len()),
{
    if !is_index_path(p) && p.len() > 0 && p[0] == '/' {
        assert(seq!['/'] + p.drop_first() =~= p);
    }
}

/// What the URL path `path` asks for.
pub fn route_for_path(path: &String) -> (r: Route)
    requires
        routable(path@),
    ensures
        r@ == route_spec(path@),
{
    if *path == "/".to_owned() || *path == "/index.html".to_owned() {
        Route::Index
    } else {
        let n = path.as_str().unicode_len();
        let name = path.as_str().substring_char(1, n).to_owned();
        assert(name@ =~= path@.drop_first());
        Route::Asset(name)
    }
}

/// The path of the URL that the url crate's `Url::parse` makes of `input`, or
/// `None` when it does not parse.
pub uninterp spec fn url_path_of(input: Seq<char>) -> Option<Seq<char>>;

/// The text (its `Display`) of the error that the url crate's `Url::parse`
/// reports for `input`.
pub uninterp spec fn url_parse_error_of(input: Seq<char>) -> Seq<char>;

/// Parses `input` with the url crate's `Url::parse` and gives the URL's path
/// (`Url::path`), or the parse error's text. The contract states that the
/// path is the url crate's for that input, that an error comes exactly when
/// it does not parse, and that the error's text is the url crate's for that
/// input.
#[verifier::external_body]
fn parse_url_path(input: &str) -> (r: Result<String, String>)
    ensures
        r matches Ok(p) ==> url_path_of(input@) == Some(p@),
        r matches Err(e) ==> e@ == url_parse_error_of(input@),
        r is Err <==> url_path_of(input@) is None,
{
    match url::Url::parse(input) {
        Ok(u) => Ok(u.path().to_string()),
        Err(e) => Err(e.to_string()),
    }
}

/// The URL that the component reads a request's path and query as: the
/// path under the made-up scheme `whatever`.
pub open spec fn request_url(path_with_query: Seq<char>) -> Seq<char> {
    "whatever:"@ + path_with_query
}

/// What a request for `path_with_query` asks for: the url crate's error
/// text when it is no URL; `None` when its URL path is one the component cannot answer;
/// otherwise the page or the asset that the path names.
pub fn route_request(path_with_query: &str) -> (r: Result<Option<Route>, String>)
    ensures
        r is Err <==> url_path_of(request_url(path_with_query@)) is None,
        r matches Err(e) ==> e@ == url_parse_error_of(request_url(path_with_query@)),
        r matches Ok(o) ==> url_path_of(request_url(path_with_query@)) matches Some(p) && (
        o is None <==> !routable(p)) && (o matches Some(route) ==> route@ == route_spec(p)),
{
    let url = "whatever:".to_owned().concat(path_with_query);
    match parse_url_path(url.as_str()) {
        Err(e) => Err(e),
        Ok(p) => {
            let n = p.as_str().unicode_len();
            let ok = p == "/".to_owned() || p == "/index.html".to_owned() || (n > 0
                && p.as_str().get_char(0) == '/');
            if ok {
                Ok(Some(route_for_path(&p)))
            } else {
                Ok(None)
            }
        },
    }
}

/// An HTTP request method.
pub enum Method {
    Get,
    Post,
    Patch,
    Put,
    Delete,
    Options,
    Head,
    Connect,
    Trace,
    Other(String),
}

impl Method {
    /// The method's name as it appears in a request line.
    pub open spec fn text(&self) -> Seq<char> {
        match self {
            Method::Get => "GET"@,
            Method::Post => "POST"@,
            Method::Patch => "PATCH"@,
            Method::Put => "PUT"@,
            Method::Delete => "DELETE"@,
            Method::Options => "OPTIONS"@,
            Method::Head => "HEAD"@,
            Method::Connect => "CONNECT"@,
            Method::Trace => "TRACE"@,
            Method::Other(m) => m@,
        }
    }

    /// The method's name as it appears in a request line.
    pub fn to_string(&self) -> (s: String)
        ensures
            s@ == self.text(),
    {
        match self {
            Method::Get => "GET".to_owned(),
            Method::Post => "POST".to_owned(),
            Method::Patch => "PATCH".to_owned(),
            Method::Put => "PUT".to_owned(),
            Method::Delete => "DELETE".to_owned(),
            Method::Options => "OPTIONS".to_owned(),
            Method::Head => "HEAD".to_owned(),
            Method::Connect => "CONNECT".to_owned(),
            Method::Trace => "TRACE".to_owned(),
            Method::Other(m) => m.clone(),
        }
    }
}

} // verus!
