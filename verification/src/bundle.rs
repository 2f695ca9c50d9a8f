//! Which content a bundle request names, how it is built, and the keys under
//! which bundles and manifests are stored.
use vstd::prelude::*;
use crate::index::HashIndex;
use crate::text::{
    ends_with,
    ends_with_text,
    eq_ascii_ci,
    eq_ignore_ascii_case,
    rsplit_once_char,
    rsplit_once_spec,
    to_lowercase,
    unicode_lowercase,
};

verus! {

pub open spec fn glb_ext() -> Seq<char> {
    seq!['.', 'g', 'l', 'b']
}

pub open spec fn gltf_ext() -> Seq<char> {
    seq!['.', 'g', 'l', 't', 'f']
}

pub open spec fn png_ext() -> Seq<char> {
    seq!['.', 'p', 'n', 'g']
}

pub open spec fn jpg_ext() -> Seq<char> {
    seq!['.', 'j', 'p', 'g']
}

pub open spec fn jpeg_ext() -> Seq<char> {
    seq!['.', 'j', 'p', 'e', 'g']
}

/// The file is a model: its lowercase name ends in `.glb` or `.gltf`.
pub open spec fn is_model_file(file: Seq<char>) -> bool {
    let lc = unicode_lowercase(file);
    ends_with(lc, glb_ext()) || ends_with(lc, gltf_ext())
}

/// The file is an image: its lowercase name ends in `.png`, `.jpg` or `.jpeg`.
pub open spec fn is_image_file(file: Seq<char>) -> bool {
    let lc = unicode_lowercase(file);
    ends_with(lc, png_ext()) || ends_with(lc, jpg_ext()) || ends_with(lc, jpeg_ext())
}

/// Whether a content file can be converted: `(is a model, is an image)`.
pub fn is_convertible(file: &str) -> (kinds: (bool, bool))
    ensures
        kinds.0 == is_model_file(file@),
        kinds.1 == is_image_file(file@),
{
    let fl = to_lowercase(file);
    let f = fl.as_str();
    proof {
        reveal_strlit(".glb");
        reveal_strlit(".gltf");
        reveal_strlit(".png");
        reveal_strlit(".jpg");
        reveal_strlit(".jpeg");
        assert(".glb"@ =~= glb_ext());
        assert(".gltf"@ =~= gltf_ext());
        assert(".png"@ =~= png_ext());
        assert(".jpg"@ =~= jpg_ext());
        assert(".jpeg"@ =~= jpeg_ext());
    }
    let is_glb = ends_with_text(f, ".glb") || ends_with_text(f, ".gltf");
    let is_image = ends_with_text(f, ".png") || ends_with_text(f, ".jpg") || ends_with_text(
        f,
        ".jpeg",
    );
    (is_glb, is_image)
}

/// Whether the content file has one of the convertible extensions (whose
/// bytes an entity fetches ahead of any build).
pub fn has_convertible_ext(file: &str) -> (r: bool)
    ensures
        r == (is_model_file(file@) || is_image_file(file@)),
{
    let (is_glb, is_image) = is_convertible(file);
    is_glb || is_image
}

/// One entry of an entity's content list.
pub struct ContentItem {
    pub file: String,
    pub hash: String,
}

/// What a bundle name resolves to within an entity.
pub enum BundleTarget {
    /// Content item `index` of the entity, for `platform`.
    Content { index: usize, platform: String, is_glb: bool, is_image: bool },
    /// The hash belongs to another entity: build there.
    Owner(String),
    /// The bundle name has no `_<platform>` suffix.
    MissingPlatform,
    /// The hash (given) is in neither this entity nor one owned elsewhere.
    HashNotInEntity { hash: String },
    /// Content item `index`, named by the hash, is neither a model nor an image.
    NotConvertible { index: usize },
}

/// `items[k]` is the first content item whose hash equals `h` up to ASCII case.
pub open spec fn is_first_hash_match(items: Seq<ContentItem>, h: Seq<char>, k: int) -> bool {
    0 <= k < items.len() && eq_ascii_ci(items[k].hash@, h) && forall|j: int|
        0 <= j < k ==> !eq_ascii_ci(#[trigger] items[j].hash@, h)
}

/// No content item's hash equals `h` up to ASCII case.
pub open spec fn no_hash_match(items: Seq<ContentItem>, h: Seq<char>) -> bool {
    forall|j: int| 0 <= j < items.len() ==> !eq_ascii_ci(#[trigger] items[j].hash@, h)
}

/// What `resolve_bundle` answers for a bundle name.
pub open spec fn resolves_to(
    items: Seq<ContentItem>,
    entity_id: Seq<char>,
    owners: Map<Seq<char>, Seq<char>>,
    bundle_name: Seq<char>,
    target: BundleTarget,
) -> bool {
    match rsplit_once_spec(bundle_name, '_') {
        None => target is MissingPlatform,
        Some(parts) => {
            let h = parts.0;
            match target {
                BundleTarget::Content { index, platform, is_glb, is_image } => {
                    &&& is_first_hash_match(items, h, index as int)
                    &&& platform@ == parts.1
                    &&& is_glb == is_model_file(items[index as int].file@)
                    &&& is_image == is_image_file(items[index as int].file@)
                    &&& (is_glb || is_image)
                },
                BundleTarget::Owner(owner) => {
                    &&& no_hash_match(items, h)
                    &&& owners.contains_key(unicode_lowercase(h))
                    &&& owner@ == owners[unicode_lowercase(h)]
                    &&& !eq_ascii_ci(owner@, entity_id)
                },
                BundleTarget::NotConvertible { index } => {
                    &&& is_first_hash_match(items, h, index as int)
                    &&& !is_model_file(items[index as int].file@)
                    &&& !is_image_file(items[index as int].file@)
                },
                BundleTarget::HashNotInEntity { hash } => {
                    &&& hash@ == h
                    &&& no_hash_match(items, h)
                    &&& (owners.contains_key(unicode_lowercase(h)) ==> eq_ascii_ci(
                        owners[unicode_lowercase(h)],
                        entity_id,
                    ))
                },
                BundleTarget::MissingPlatform => false,
            }
        },
    }
}

/// Resolves `bundle_name` (`<hash>_<platform>`) within the entity `entity_id`
/// whose content is `items`: the first item whose hash matches (ASCII case
/// ignored), or the entity that `owners` records for the hash when it is
/// another one.
pub fn resolve_bundle(
    items: &Vec<ContentItem>,
    entity_id: &str,
    owners: &HashIndex,
    bundle_name: &str,
) -> (target: BundleTarget)
    ensures
        resolves_to(items@, entity_id@, owners.view(), bundle_name@, target),
{
    let (hash, platform) = match rsplit_once_char(bundle_name, '_') {
        Some(p) => p,
        None => {
            return BundleTarget::MissingPlatform;
        },
    };
    let mut i: usize = 0;
    while i < items.len()
        invariant
            i <= items@.len(),
            rsplit_once_spec(bundle_name@, '_') == Some((hash@, platform@)),
            forall|j: int| 0 <= j < i ==> !eq_ascii_ci(#[trigger] items@[j].hash@, hash@),
        decreases items@.len() - i,
    {
        if eq_ignore_ascii_case(items[i].hash.as_str(), hash.as_str()) {
            let (is_glb, is_image) = is_convertible(items[i].file.as_str());
            if !is_glb && !is_image {
                return BundleTarget::NotConvertible { index: i };
            }
            return BundleTarget::Content { index: i, platform, is_glb, is_image };
        }
        i = i + 1;
    }
    match owners.entity_for_hash(hash.as_str()) {
        Some(owner) => {
            if !eq_ignore_ascii_case(owner.as_str(), entity_id) {
                return BundleTarget::Owner(owner);
            }
            BundleTarget::HashNotInEntity { hash }
        },
        None => BundleTarget::HashNotInEntity { hash },
    }
}

/// A bundle resolved to content is built by the kind of the file it names:
/// as a model exactly when that file's lowercase name ends in `.glb` or
/// `.gltf`, as an image exactly when it ends in `.png`, `.jpg` or `.jpeg`;
/// and the file is one of the two.
pub proof fn lemma_content_kind_is_file_kind(
    items: Seq<ContentItem>,
    entity_id: Seq<char>,
    owners: Map<Seq<char>, Seq<char>>,
    bundle_name: Seq<char>,
    index: usize,
    platform: String,
    is_glb: bool,
    is_image: bool,
)
    requires
        resolves_to(
            items,
            entity_id,
            owners,
            bundle_name,
            BundleTarget::Content { index, platform, is_glb, is_image },
        ),
    ensures
        0 <= index < items.len(),
        is_glb == (ends_with(unicode_lowercase(items[index as int].file@), seq!['.', 'g', 'l', 'b'])
            || ends_with(
            unicode_lowercase(items[index as int].file@),
            seq!['.', 'g', 'l', 't', 'f'],
        )),
        is_image == (ends_with(unicode_lowercase(items[index as int].file@), seq!['.', 'p', 'n', 'g'])
            || ends_with(unicode_lowercase(items[index as int].file@), seq!['.', 'j', 'p', 'g'])
            || ends_with(
            unicode_lowercase(items[index as int].file@),
            seq!['.', 'j', 'p', 'e', 'g'],
        )),
        is_glb || is_image,
{
}

/// Options for converting one content item, besides its bytes.
pub struct BuildFlags {
    /// Whether the model's metadata dependencies are collected (models only).
    pub wants_metadata_deps: bool,
    /// An image that some model of the entity references.
    pub model_referenced: bool,
    /// Colour space of a standalone image: 0 linear, 1 sRGB; none for models.
    pub standalone_color_space: Option<u8>,
    /// An image that the entity's models use as a normal map.
    pub standalone_normal: bool,
    /// The entity type, when the entity has one.
    pub entity_type: Option<String>,
}

/// The conversion options for an item: `in_model_refs`, `in_linear_refs` and
/// `in_normal_refs` say whether its hash is among the entity's model, linear
/// and normal-map references.
pub fn build_flags(
    is_glb: bool,
    is_image: bool,
    in_model_refs: bool,
    in_linear_refs: bool,
    in_normal_refs: bool,
    entity_type: &str,
) -> (flags: BuildFlags)
    ensures
        flags.wants_metadata_deps == is_glb,
        flags.model_referenced == (is_image && in_model_refs),
        flags.standalone_color_space == (if is_image {
            Some(if in_linear_refs {
                0u8
            } else {
                1u8
            })
        } else {
            None
        }),
        flags.standalone_normal == (is_image && in_normal_refs),
        entity_type@.len() == 0 ==> flags.entity_type is None,
        entity_type@.len() > 0 ==> (flags.entity_type matches Some(t) && t@ == entity_type@),
{
    BuildFlags {
        wants_metadata_deps: is_glb,
        model_referenced: is_image && in_model_refs,
        standalone_color_space: if is_image {
            Some(
                if in_linear_refs {
                    0u8
                } else {
                    1u8
                },
            )
        } else {
            None
        },
        standalone_normal: is_image && in_normal_refs,
        entity_type: if entity_type.is_empty() {
            None
        } else {
            Some(String::from_str(entity_type))
        },
    }
}

/// How a conversion ended, as reported in build telemetry.
#[derive(PartialEq, Eq, Structural, Debug, Clone, Copy)]
pub enum BuildOutcome {
    Succeeded,
    PanicRecovered,
    Error,
}

pub open spec fn panic_prefix() -> Seq<char> {
    seq!['p', 'a', 'n', 'i', 'c', ':']
}

/// The outcome of a conversion that produced `Ok(output length)` or failed
/// with `Err(message)`, with the output length to report (0 on failure).
/// A failure whose message starts with `panic:` was a recovered panic.
pub fn build_outcome(result: &Result<usize, String>) -> (r: (BuildOutcome, usize))
    ensures
        result matches Ok(n) ==> r == (BuildOutcome::Succeeded, *n),
        result matches Err(msg) ==> r.1 == 0 && r.0 == (if msg@.len() >= 6 && msg@.take(6)
            == panic_prefix() {
            BuildOutcome::PanicRecovered
        } else {
            BuildOutcome::Error
        }),
{
    match result {
        Ok(n) => (BuildOutcome::Succeeded, *n),
        Err(msg) => {
            let cs = crate::text::chars_of(msg.as_str());
            let prefix = crate::text::chars_of("panic:");
            proof {
                reveal_strlit("panic:");
                assert("panic:"@ =~= panic_prefix());
            }
            if cs.len() >= 6 && crate::text::range_equals(&cs, 0, 6, &prefix) {
                assert(cs@.subrange(0, 6) =~= msg@.take(6));
                (BuildOutcome::PanicRecovered, 0)
            } else {
                proof {
                    if cs.len() >= 6 {
                        assert(cs@.subrange(0, 6) =~= msg@.take(6));
                    }
                }
                (BuildOutcome::Error, 0)
            }
        },
    }
}

impl BuildOutcome {
    /// The label written to telemetry.
    pub fn label(&self) -> (s: &'static str)
        ensures
            *self == BuildOutcome::Succeeded ==> s@ == seq!['o', 'k'],
            *self == BuildOutcome::PanicRecovered ==> s@ == seq![
                'p',
                'a',
                'n',
                'i',
                'c',
                '-',
                'r',
                'e',
                'c',
                'o',
                'v',
                'e',
                'r',
                'e',
                'd',
            ],
            *self == BuildOutcome::Error ==> s@ == seq!['e', 'r', 'r', 'o', 'r'],
    {
        proof {
            reveal_strlit("ok");
            reveal_strlit("panic-recovered");
            reveal_strlit("error");
        }
        match self {
            BuildOutcome::Succeeded => {
                assert("ok"@ =~= seq!['o', 'k']);
                "ok"
            },
            BuildOutcome::PanicRecovered => {
                assert("panic-recovered"@ =~= seq![
                    'p',
                    'a',
                    'n',
                    'i',
                    'c',
                    '-',
                    'r',
                    'e',
                    'c',
                    'o',
                    'v',
                    'e',
                    'r',
                    'e',
                    'd',
                ]);
                "panic-recovered"
            },
            BuildOutcome::Error => {
                assert("error"@ =~= seq!['e', 'r', 'r', 'o', 'r']);
                "error"
            },
        }
    }
}

/// `a`, `/`, `b`.
pub fn slash_join(a: &str, b: &str) -> (r: String)
    ensures
        r@ == a@ + seq!['/'] + b@,
{
    let mut r = String::from_str(a);
    r.append("/");
    r.append(b);
    proof {
        reveal_strlit("/");
        assert("/"@ =~= seq!['/']);
    }
    r
}

/// Key of a generated bundle in the remote space: `version/cid/file`.
pub fn bundle_key(version: &str, cid: &str, file: &str) -> (key: String)
    ensures
        key@ == version@ + seq!['/'] + cid@ + seq!['/'] + file@,
{
    let head = slash_join(version, cid);
    slash_join(head.as_str(), file)
}

/// Key of the lock that serialises builds of one entity's bundle:
/// `cid/bundle_name`.
pub fn bundle_lock_key(cid: &str, bundle_name: &str) -> (key: String)
    ensures
        key@ == cid@ + seq!['/'] + bundle_name@,
{
    slash_join(cid, bundle_name)
}

pub open spec fn manifest_prefix() -> Seq<char> {
    seq!['m', 'a', 'n', 'i', 'f', 'e', 's', 't', '/']
}

pub open spec fn json_ext() -> Seq<char> {
    seq!['.', 'j', 's', 'o', 'n']
}

/// Key of a manifest in the remote space: `manifest/<stem>.json`.
pub fn manifest_key(stem: &str) -> (key: String)
    ensures
        key@ == manifest_prefix() + stem@ + json_ext(),
{
    let mut key = String::from_str("manifest/");
    key.append(stem);
    key.append(".json");
    proof {
        reveal_strlit("manifest/");
        reveal_strlit(".json");
        assert("manifest/"@ =~= manifest_prefix());
        assert(".json"@ =~= json_ext());
    }
    key
}

/// Key of the manifest written beside a generated bundle:
/// `manifest/<cid>_<platform>.json`, where the platform is what follows the
/// last `_` of the bundle file name; none when the name has no `_`.
pub fn manifest_key_for_bundle(cid: &str, file: &str) -> (key: Option<String>)
    ensures
        rsplit_once_spec(file@, '_') is None ==> key is None,
        rsplit_once_spec(file@, '_') matches Some(parts) ==> (key matches Some(k) && k@
            == manifest_prefix() + cid@ + seq!['_'] + parts.1 + json_ext()),
{
    match rsplit_once_char(file, '_') {
        None => None,
        Some((_, platform)) => {
            let mut stem = String::from_str(cid);
            stem.append("_");
            stem.append(platform.as_str());
            proof {
                reveal_strlit("_");
                assert("_"@ =~= seq!['_']);
            }
            let k = manifest_key(stem.as_str());
            assert(k@ =~= manifest_prefix() + cid@ + seq!['_'] + platform@ + json_ext());
            Some(k)
        },
    }
}

} // verus!
