//! Routing of proxy requests: what a method and path ask for.
use vstd::prelude::*;
use vstd::utf8::encode_utf8;
use crate::http::{text_response, Response};
use crate::index::HashIndex;
use crate::text::{
    before_first,
    before_first_char,
    ends_with,
    ends_with_text,
    rsplit_once_char,
    rsplit_once_spec,
    split_char,
    split_on,
    substring,
    text_eq,
    trim_matches,
    trim_matches_char,
    unicode_lowercase,
    views,
};

verus! {

/// The path of a request without its query and outer slashes.
pub open spec fn route_path(path: Seq<char>) -> Seq<char> {
    trim_matches_char(before_first(path, '?'), '/')
}

/// The `/`-separated segments of a request path.
pub open spec fn route_parts(path: Seq<char>) -> Seq<Seq<char>> {
    split_on(route_path(path), '/')
}

/// `s` before its last `_`, or all of `s` when it has none (the hash or
/// entity part of `<x>_<platform>`).
pub open spec fn before_last_underscore(s: Seq<char>) -> Seq<char> {
    match rsplit_once_spec(s, '_') {
        Some(p) => p.0,
        None => s,
    }
}

/// What a request asks for.
pub enum Route {
    /// A CORS preflight, answered 204 with no body.
    Preflight,
    /// The batch `entities/versions` lookup.
    Versions,
    /// The manifest of an entity: `manifest/<stem>.json`.
    Manifest { stem: String, entity: String },
    /// A bundle of a named entity: `<version>/<entity>/<file>`.
    Asset { entity: String, file: String },
    /// A bundle named by hash alone: `<version>/<file>`.
    FlatAsset { hash: String, file: String },
    /// Nothing here: 404.
    NotFound,
}

/// `route` answers `r` for `method` and `path`.
pub open spec fn routes_to(method: Seq<char>, path: Seq<char>, r: Route) -> bool {
    let trimmed = route_path(path);
    let parts = route_parts(path);
    if method == "OPTIONS"@ {
        r is Preflight
    } else if method == "POST"@ && ends_with(trimmed, "entities/versions"@) {
        r is Versions
    } else if method != "GET"@ && method != "HEAD"@ {
        r is NotFound
    } else if parts.len() == 2 && parts[0] == "manifest"@ && ends_with(parts[1], ".json"@) {
        let stem = parts[1].take(parts[1].len() - 5);
        r matches Route::Manifest { stem: s, entity: e } && s@ == stem && e@
            == before_last_underscore(stem)
    } else if parts.len() == 3 {
        r matches Route::Asset { entity: e, file: f } && e@ == parts[1] && f@ == parts[2]
    } else if parts.len() == 2 {
        r matches Route::FlatAsset { hash: h, file: f } && f@ == parts[1] && h@
            == before_last_underscore(parts[1])
    } else {
        r is NotFound
    }
}

/// `s` before its last `_`, or all of `s`.
pub fn head_before_underscore(s: &str) -> (r: String)
    ensures
        r@ == before_last_underscore(s@),
{
    match rsplit_once_char(s, '_') {
        Some((head, _)) => head,
        None => String::from_str(s),
    }
}

/// Routes a request by its method and path (query ignored).
pub fn route(method: &str, path: &str) -> (r: Route)
    ensures
        routes_to(method@, path@, r),
{
    let raw = before_first_char(path, '?');
    let trimmed = trim_matches(raw.as_str(), '/');
    let parts = split_char(trimmed.as_str(), '/');
    assert(views(parts@) == route_parts(path@));
    assert(views(parts@).len() == parts@.len());
    if text_eq(method, "OPTIONS") {
        return Route::Preflight;
    }
    if text_eq(method, "POST") && ends_with_text(trimmed.as_str(), "entities/versions") {
        return Route::Versions;
    }
    if !text_eq(method, "GET") && !text_eq(method, "HEAD") {
        return Route::NotFound;
    }
    proof {
        if parts@.len() >= 1 {
            assert(views(parts@)[0] == parts@[0]@);
        }
        if parts@.len() >= 2 {
            assert(views(parts@)[1] == parts@[1]@);
        }
        if parts@.len() >= 3 {
            assert(views(parts@)[2] == parts@[2]@);
        }
    }
    if parts.len() == 2 && text_eq(parts[0].as_str(), "manifest") && ends_with_text(
        parts[1].as_str(),
        ".json",
    ) {
        let name = parts[1].as_str();
        let n = crate::text::chars_of(name).len();
        proof {
            reveal_strlit(".json");
        }
        let stem = substring(name, 0, n - 5);
        assert(stem@ =~= parts@[1]@.take(parts@[1]@.len() - 5));
        let entity = head_before_underscore(stem.as_str());
        return Route::Manifest { stem, entity };
    }
    if parts.len() == 3 {
        let entity = parts[1].clone();
        let file = parts[2].clone();
        return Route::Asset { entity, file };
    }
    if parts.len() == 2 {
        let file = parts[1].clone();
        let hash = head_before_underscore(file.as_str());
        return Route::FlatAsset { hash, file };
    }
    Route::NotFound
}

/// `HEAD` is routed exactly as `GET`: for every path the two methods give the
/// same routes (a `HEAD` answer differs only in leaving the body out).
pub proof fn lemma_head_routes_as_get(path: Seq<char>, r: Route)
    ensures
        routes_to("HEAD"@, path, r) <==> routes_to("GET"@, path, r),
{
    reveal_strlit("HEAD");
    reveal_strlit("GET");
    reveal_strlit("OPTIONS");
    reveal_strlit("POST");
    assert("HEAD"@.len() == 4 && "OPTIONS"@.len() == 7 && "GET"@.len() == 3);
    assert("HEAD"@[0] == 'H' && "POST"@[0] == 'P' && "GET"@[0] == 'G');
    assert("HEAD"@ != "OPTIONS"@);
    assert("HEAD"@ != "POST"@);
    assert("HEAD"@ != "GET"@);
    assert("GET"@ != "OPTIONS"@);
    assert("GET"@ != "POST"@);
}

/// A `GET` or `HEAD` request whose path has three segments asks for the asset
/// named by the last two: the entity, then the bundle file.
pub proof fn lemma_three_segments_are_an_asset(method: Seq<char>, path: Seq<char>, r: Route)
    requires
        method == "GET"@ || method == "HEAD"@,
        route_parts(path).len() == 3,
        routes_to(method, path, r),
    ensures
        r matches Route::Asset { entity: e, file: f } && e@ == route_parts(path)[1] && f@
            == route_parts(path)[2],
{
    reveal_strlit("HEAD");
    reveal_strlit("GET");
    reveal_strlit("OPTIONS");
    reveal_strlit("POST");
    assert("HEAD"@.len() == 4 && "OPTIONS"@.len() == 7 && "GET"@.len() == 3);
    assert("HEAD"@[0] == 'H' && "POST"@[0] == 'P' && "GET"@[0] == 'G');
    assert("HEAD"@ != "OPTIONS"@);
    assert("HEAD"@ != "POST"@);
    assert("GET"@ != "OPTIONS"@);
    assert("GET"@ != "POST"@);
}

/// Whether the method is `HEAD` (answer without a body).
pub fn is_head(method: &str) -> (r: bool)
    ensures
        r == (method@ == "HEAD"@),
{
    text_eq(method, "HEAD")
}

/// The entity and file that an asset route serves; for a flat route the
/// entity is the one recorded for the hash. None: the route serves no asset,
/// or no entity is known for the hash.
pub fn asset_target(r: &Route, owners: &HashIndex) -> (t: Option<(String, String)>)
    ensures
        r matches Route::Asset { entity, file } ==> (t matches Some(p) && p.0@ == entity@ && p.1@
            == file@),
        r matches Route::FlatAsset { hash, file } ==> (if owners.view().contains_key(
            unicode_lowercase(hash@),
        ) {
            t matches Some(p) && p.0@ == owners.view()[unicode_lowercase(hash@)] && p.1@ == file@
        } else {
            t is None
        }),
        !(r is Asset) && !(r is FlatAsset) ==> t is None,
{
    match r {
        Route::Asset { entity, file } => Some((entity.clone(), file.clone())),
        Route::FlatAsset { hash, file } => match owners.entity_for_hash(hash.as_str()) {
            Some(owner) => Some((owner, file.clone())),
            None => None,
        },
        _ => None,
    }
}

/// The answer to a request that the route settles by itself: 204 to a
/// preflight, `404 not found` where nothing is routed, `404 unknown asset`
/// for a flat asset whose hash has no known entity. None: the route needs
/// more work (versions, manifest, or an asset to serve).
pub fn settled_response(r: &Route, owners: &HashIndex) -> (resp: Option<Response>)
    ensures
        r is Preflight ==> (resp matches Some(x) && x.code == 204 && x.content_type@
            == "text/plain"@ && x.body@ == encode_utf8(""@)),
        r is NotFound ==> (resp matches Some(x) && x.code == 404 && x.content_type@
            == "text/plain"@ && x.body@ == encode_utf8("not found"@)),
        r matches Route::FlatAsset { hash, file } ==> if owners.view().contains_key(
            unicode_lowercase(hash@),
        ) {
            resp is None
        } else {
            resp matches Some(x) && x.code == 404 && x.content_type@ == "text/plain"@ && x.body@
                == encode_utf8("unknown asset"@)
        },
        r is Versions || r is Manifest || r is Asset ==> resp is None,
{
    match r {
        Route::Preflight => Some(text_response(204, "text/plain", "")),
        Route::NotFound => Some(text_response(404, "text/plain", "not found")),
        Route::FlatAsset { hash, .. } => match owners.entity_for_hash(hash.as_str()) {
            Some(_) => None,
            None => Some(text_response(404, "text/plain", "unknown asset")),
        },
        _ => None,
    }
}

/// The answer to a manifest request whose entity could not be resolved:
/// the manifest kept in the fallback space if there is one, else `404`
/// with a JSON error.
pub fn manifest_fallback(stored: Option<Vec<u8>>) -> (resp: Response)
    ensures
        resp.content_type@ == "application/json"@,
        stored matches Some(b) ==> resp.code == 200 && resp.body@ == b@,
        stored is None ==> resp.code == 404 && resp.body@ == encode_utf8(
            "{\"error\":\"unknown entity\"}"@,
        ),
{
    match stored {
        Some(b) => Response {
            code: 200,
            content_type: String::from_str("application/json"),
            body: b,
        },
        None => text_response(404, "application/json", "{\"error\":\"unknown entity\"}"),
    }
}

} // verus!
