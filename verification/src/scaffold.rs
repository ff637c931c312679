//! What the build writes beside the showcase app: the manifest and the generation token.
use vstd::prelude::*;

use crate::config::ShowcaseConfig;
use crate::format::{hex_digits, push_hex};
use crate::manifest::{
    manifest_json, StoryDefinition, StoryDefinitionView, StoryManifest, StoryManifestView,
    MANIFEST_SCHEMA_VERSION,
};
use crate::runtime::{ProviderDefinition, ProviderDefinitionView};
use crate::text::push_str;
use vstd::utf8::encode_utf8;

verus! {

/// The 64-bit FNV-1a offset basis.
pub const FNV_OFFSET: u64 = 0xcbf29ce484222325;

/// The 64-bit FNV prime.
pub const FNV_PRIME: u64 = 0x100000001b3;

/// One FNV-1a round: xor in the byte, then multiply modulo 2^64.
pub open spec fn fnv_step(hash: u64, byte: u8) -> u64 {
    (((hash ^ (byte as u64)) as nat * FNV_PRIME as nat) % 0x1_0000_0000_0000_0000nat) as u64
}

/// FNV-1a over `bytes`, starting from `hash`.
pub open spec fn fnv1a(hash: u64, bytes: Seq<u8>) -> u64
    decreases bytes.len(),
{
    if bytes.len() == 0 {
        hash
    } else {
        fnv_step(fnv1a(hash, bytes.drop_last()), bytes.last())
    }
}

/// The little-endian bytes of an `i32` in two's complement (`i32::to_le_bytes`).
pub open spec fn le_bytes(x: i32) -> Seq<u8> {
    let u = x as u32;
    seq![
        (u % 256) as u8,
        ((u / 256) % 256) as u8,
        ((u / 65536) % 256) as u8,
        ((u / 16777216) % 256) as u8,
    ]
}

/// The bytes one provider contributes to the generation token.
pub open spec fn provider_bytes(p: ProviderDefinitionView) -> Seq<u8> {
    encode_utf8(p.item_path) + encode_utf8(p.wrap_symbol) + le_bytes(p.order)
}

/// The bytes all providers contribute, in order.
pub open spec fn providers_bytes(ps: Seq<ProviderDefinitionView>) -> Seq<u8>
    decreases ps.len(),
{
    if ps.len() == 0 {
        Seq::empty()
    } else {
        providers_bytes(ps.drop_last()) + provider_bytes(ps.last())
    }
}

/// The manifest the build writes for `stories`.
pub open spec fn story_manifest_view(stories: Seq<StoryDefinitionView>) -> StoryManifestView {
    StoryManifestView { schema_version: MANIFEST_SCHEMA_VERSION, stories }
}

/// The generation token: `manifest-` and sixteen hex digits of FNV-1a over the manifest's
/// JSON, then each provider's path, wrap symbol and order.
pub open spec fn generation_token(
    stories: Seq<StoryDefinitionView>,
    providers: Seq<ProviderDefinitionView>,
) -> Seq<char> {
    "manifest-"@ + hex_digits(
        fnv1a(
            FNV_OFFSET,
            encode_utf8(manifest_json(story_manifest_view(stories))) + providers_bytes(providers),
        ) as nat,
        16,
    )
}

/// The views of a sequence of story definitions.
pub open spec fn definitions_view(stories: Seq<StoryDefinition>) -> Seq<StoryDefinitionView> {
    stories.map_values(|d: StoryDefinition| d@)
}

/// The views of a sequence of provider definitions.
pub open spec fn providers_view(ps: Seq<ProviderDefinition>) -> Seq<ProviderDefinitionView> {
    ps.map_values(|p: ProviderDefinition| p@)
}

/// Returns the configured path of the generated showcase application crate.
pub fn showcase_app_dir(config: &ShowcaseConfig) -> (r: String)
    ensures
        r@ == config.project.showcase_crate@,
{
    config.project.showcase_crate.clone()
}

/// Builds the advisory manifest for the discovered stories.
pub fn story_manifest(stories: &[StoryDefinition]) -> (r: StoryManifest)
    ensures
        r@ == story_manifest_view(definitions_view(stories@)),
{
    let mut manifest = StoryManifest::new(MANIFEST_SCHEMA_VERSION);
    proof {
        assert(definitions_view(stories@.take(0)) =~= Seq::<StoryDefinitionView>::empty());
        assert(manifest@.stories =~= Seq::<StoryDefinitionView>::empty());
    }
    let mut i: usize = 0;
    while i < stories.len()
        invariant
            i <= stories@.len(),
            manifest@ == story_manifest_view(definitions_view(stories@.take(i as int))),
        decreases stories@.len() - i,
    {
        manifest.add_story(stories[i].copy());
        proof {
            assert(definitions_view(stories@.take(i + 1)) =~= definitions_view(
                stories@.take(i as int),
            ).push(stories@[i as int]@));
            assert(manifest@.stories =~= definitions_view(stories@.take(i + 1)));
        }
        i = i + 1;
    }
    proof {
        assert(stories@.take(stories@.len() as int) =~= stories@);
    }
    manifest
}

/// Feeds the bytes of `bytes` into the running hash.
fn hash_bytes(hash: u64, bytes: &[u8]) -> (r: u64)
    ensures
        r == fnv1a(hash, bytes@),
{
    let mut h = hash;
    let mut i: usize = 0;
    while i < bytes.len()
        invariant
            i <= bytes@.len(),
            h == fnv1a(hash, bytes@.take(i as int)),
        decreases bytes@.len() - i,
    {
        proof {
            assert(bytes@.take(i + 1).drop_last() =~= bytes@.take(i as int));
        }
        h = (h ^ (bytes[i] as u64)).wrapping_mul(FNV_PRIME);
        i = i + 1;
    }
    proof {
        assert(bytes@.take(bytes@.len() as int) =~= bytes@);
    }
    h
}

proof fn lemma_fnv1a_concat(hash: u64, a: Seq<u8>, b: Seq<u8>)
    ensures
        fnv1a(fnv1a(hash, a), b) == fnv1a(hash, a + b),
    decreases b.len(),
{
    if b.len() > 0 {
        lemma_fnv1a_concat(hash, a, b.drop_last());
        assert((a + b).drop_last() =~= a + b.drop_last());
    } else {
        assert(a + b =~= a);
    }
}

/// The little-endian bytes of `x`.
fn i32_le_bytes(x: i32) -> (r: [u8; 4])
    ensures
        r@ == le_bytes(x),
{
    let u = x as u32;
    let r = [
        (u % 256) as u8,
        ((u / 256) % 256) as u8,
        ((u / 65536) % 256) as u8,
        ((u / 16777216) % 256) as u8,
    ];
    assert(r@ =~= le_bytes(x));
    r
}

/// Computes a deterministic token representing the current generated runtime inputs.
pub fn stable_generation_token(
    stories: &[StoryDefinition],
    providers: &[ProviderDefinition],
) -> (r: String)
    ensures
        r@ == generation_token(definitions_view(stories@), providers_view(providers@)),
{
    let json = story_manifest(stories).to_json();
    let ghost manifest_bytes = encode_utf8(
        manifest_json(story_manifest_view(definitions_view(stories@))),
    );
    let mut hash = hash_bytes(FNV_OFFSET, json.as_str().as_bytes());
    let ghost pv = providers_view(providers@);
    let mut i: usize = 0;
    while i < providers.len()
        invariant
            i <= providers@.len(),
            pv == providers_view(providers@),
            pv.len() == providers@.len(),
            hash == fnv1a(FNV_OFFSET, manifest_bytes + providers_bytes(pv.take(i as int))),
        decreases providers@.len() - i,
    {
        let p = &providers[i];
        let ghost before = manifest_bytes + providers_bytes(pv.take(i as int));
        let h1 = hash_bytes(hash, p.item_path.as_str().as_bytes());
        let h2 = hash_bytes(h1, p.wrap_symbol.as_str().as_bytes());
        let order = i32_le_bytes(p.order);
        let h3 = hash_bytes(h2, order.as_slice());
        proof {
            let pb = provider_bytes(pv[i as int]);
            assert(pv[i as int] == p@);
            lemma_fnv1a_concat(FNV_OFFSET, before, encode_utf8(p.item_path@));
            lemma_fnv1a_concat(
                FNV_OFFSET,
                before + encode_utf8(p.item_path@),
                encode_utf8(p.wrap_symbol@),
            );
            lemma_fnv1a_concat(
                FNV_OFFSET,
                before + encode_utf8(p.item_path@) + encode_utf8(p.wrap_symbol@),
                le_bytes(p.order),
            );
            assert(pv.take(i + 1).drop_last() =~= pv.take(i as int));
            assert(before + encode_utf8(p.item_path@) + encode_utf8(p.wrap_symbol@) + le_bytes(
                p.order,
            ) =~= manifest_bytes + providers_bytes(pv.take(i + 1)));
        }
        hash = h3;
        i = i + 1;
    }
    proof {
        assert(pv.take(providers@.len() as int) =~= pv);
    }
    let mut out = String::new();
    push_str(&mut out, "manifest-");
    push_hex(&mut out, hash, 16);
    out
}

} // verus!
