//! Catalogs: signatures, keys, caches.

use ring::signature::{Ed25519KeyPair, KeyPair};
use uci_grabber::catalog::{
    accept_parsed, authenticate, bundled_catalog, bundled_public_key, check_endpoint,
    check_fetched, check_file_size, check_sizes, decode_fixed_given, decode_public_key,
    decode_signature, default_client, preferred_catalog, trim_ascii, CachedCatalog, CatalogCache,
    CatalogClient, VerifiedCatalog, BUNDLED_CATALOG, BUNDLED_SIGNATURE, DEFAULT_CATALOG_URL,
    DEFAULT_SIGNATURE_URL,
};
use uci_grabber::error::Error;
use uci_grabber::place::Place;
use uci_grabber::schema::{
    ArchiveFormat, Artifact, ArtifactKind, Catalog, License, Model, Package, Publisher, Recipe,
    CATALOG_SCHEMA, RECIPE_SCHEMA,
};

const CARGO_PKG_VERSION: &str = "0.2.0";

const BYTES: &[u8] = br#"{"schema":"uci-grabber-catalog/v1","generated_at":"2026-07-21T00:00:00Z","expires_at":"9999-12-31T23:59:59Z","recipes":[]}"#;

fn pair() -> Ed25519KeyPair {
    let random = ring::rand::SystemRandom::new();
    let key = Ed25519KeyPair::generate_pkcs8(&random).unwrap();
    Ed25519KeyPair::from_pkcs8(key.as_ref()).unwrap()
}

fn empty_catalog() -> Catalog {
    Catalog {
        schema: CATALOG_SCHEMA.into(),
        generated_at: "2026-07-21T00:00:00Z".into(),
        expires_at: "9999-12-31T23:59:59Z".into(),
        recipes: Vec::new(),
    }
}

fn expired_catalog() -> Catalog {
    Catalog {
        schema: CATALOG_SCHEMA.into(),
        generated_at: "2000-01-01T00:00:00Z".into(),
        expires_at: "2000-01-02T00:00:00Z".into(),
        recipes: Vec::new(),
    }
}

fn parse(bytes: &[u8]) -> Result<Catalog, String> {
    if bytes == b"{}" {
        Err("missing field `schema`".into())
    } else {
        Ok(empty_catalog())
    }
}

fn parse_expired(_bytes: &[u8]) -> Result<Catalog, String> {
    Ok(expired_catalog())
}

fn parse_recipe(_bytes: &[u8]) -> Result<Catalog, String> {
    let mut catalog = empty_catalog();
    catalog.recipes.push(Recipe {
        schema: RECIPE_SCHEMA.into(),
        id: "test-engine".into(),
        name: "Test Engine".into(),
        version: "1.0.0".into(),
        description: "Fixture".into(),
        publisher: Publisher { name: "Fixture".into(), url: "https://example.test".into() },
        license: License {
            spdx: "MIT".into(),
            name: "MIT".into(),
            url: "https://example.test/license".into(),
            source_url: "https://example.test/source".into(),
        },
        homepage: "https://example.test/engine".into(),
        minimum_fisheye_version: "1.7.0".into(),
        models: vec![Model {
            id: "small".into(),
            name: "Small".into(),
            description: "Small fixture".into(),
            packages: vec![Package {
                platform: "linux-x86_64".into(),
                artifacts: vec![Artifact {
                    kind: ArtifactKind::Runtime,
                    url: "https://example.test/engine.zip".into(),
                    byte_count: 42,
                    sha256: "a".repeat(64),
                    format: ArchiveFormat::Zip,
                    destination: "runtime".into(),
                }],
                executable: "runtime/engine".into(),
                working_directory: "runtime".into(),
            }],
        }],
    });
    Ok(catalog)
}

fn hex(bytes: &[u8]) -> String {
    bytes.iter().map(|byte| format!("{byte:02x}")).collect()
}

fn cache() -> CatalogCache {
    CatalogCache::new(Place::read("/data/cache", '/'))
}

#[test]
fn verifies_exact_catalog_bytes() {
    let pair = pair();
    let signature = pair.sign(BYTES);
    let verified =
        VerifiedCatalog::verify(BYTES, signature.as_ref(), pair.public_key().as_ref(), parse).unwrap();
    assert!(verified.catalog.recipes.is_empty());
    assert!(
        VerifiedCatalog::verify(b"{}", signature.as_ref(), pair.public_key().as_ref(), parse).is_err()
    );
}

#[test]
fn bundled_catalog_signature_is_valid() {
    bundled_catalog(parse).unwrap();
    assert!(DEFAULT_CATALOG_URL.contains(CARGO_PKG_VERSION));
    assert!(!DEFAULT_CATALOG_URL.contains("/latest/"));
}

#[test]
fn accepts_hex_signature_and_key() {
    let key = [0x12_u8; 32];
    assert_eq!(
        decode_public_key(format!("{}\n", hex(&key)).as_bytes()).unwrap(),
        key
    );
    let signature = [0x34_u8; 64];
    assert_eq!(
        decode_signature(hex(&signature).as_bytes()).unwrap(),
        signature
    );
}

#[test]
fn accepts_base64_and_raw_keys() {
    let key = [0x12_u8; 32];
    let text = "EhISEhISEhISEhISEhISEhISEhISEhISEhISEhISEhI=";
    assert_eq!(decode_public_key(text.as_bytes()).unwrap(), key);
    assert_eq!(decode_public_key(&key).unwrap(), key);
    assert!(decode_public_key(b"too short").is_err());
    assert!(matches!(decode_signature(&key), Err(Error::InvalidSignature)));
    assert_eq!(decode_fixed_given(b"anything", 2, Some(vec![1, 2])), Some(vec![1, 2]));
    assert_eq!(decode_fixed_given(b"anything", 2, Some(vec![1])), None);
    assert_eq!(decode_fixed_given(b"0a0B", 2, None), Some(vec![10, 11]));
    assert_eq!(decode_fixed_given(b"0a0g", 2, None), None);
}

#[test]
fn signatures_written_as_text_are_accepted() {
    let pair = pair();
    let signature = pair.sign(BYTES);
    let text = format!("{}\n", hex(signature.as_ref()));
    let verified =
        VerifiedCatalog::verify(BYTES, text.as_bytes(), pair.public_key().as_ref(), parse).unwrap();
    assert_eq!(verified.exact_bytes, BYTES);
    assert_eq!(verified.signature, signature.as_ref());
}

#[test]
fn forged_catalogs_are_not_read() {
    let pair = pair();
    let other = self::pair();
    let signature = other.sign(BYTES);
    assert_eq!(
        authenticate(BYTES, signature.as_ref(), pair.public_key().as_ref()).unwrap_err(),
        Error::InvalidSignature,
    );
    let unread = |_bytes: &[u8]| -> Result<Catalog, String> { panic!("a forged catalog is read") };
    assert_eq!(
        VerifiedCatalog::verify(BYTES, signature.as_ref(), pair.public_key().as_ref(), unread)
            .err(),
        Some(Error::InvalidSignature),
    );
}

#[test]
fn expired_catalogs_are_refused() {
    let pair = pair();
    let signature = pair.sign(BYTES);
    let key = pair.public_key().as_ref();
    assert!(matches!(
        VerifiedCatalog::verify(BYTES, signature.as_ref(), key, parse_expired),
        Err(Error::InvalidCatalog(_)),
    ));
    assert!(VerifiedCatalog::verify_bootstrap(BYTES, signature.as_ref(), key, parse_expired).is_err());
    assert!(accept_parsed(BYTES, Ok(expired_catalog()), "1999-12-31T00:00:00Z", false).is_ok());
    assert!(accept_parsed(BYTES, Ok(expired_catalog()), "2001-12-31T00:00:00Z", false).is_err());
    assert!(matches!(
        accept_parsed(BYTES, Err("no".into()), "2001-12-31T00:00:00Z", true),
        Err(Error::Json(_)),
    ));
}

#[test]
fn bootstrap_catalogs_are_empty() {
    let pair = pair();
    let signature = pair.sign(BYTES);
    let key = pair.public_key().as_ref();
    assert!(VerifiedCatalog::verify_bootstrap(BYTES, signature.as_ref(), key, parse).is_ok());
    assert!(VerifiedCatalog::verify(BYTES, signature.as_ref(), key, parse_recipe).is_ok());
    assert_eq!(
        VerifiedCatalog::verify_bootstrap(BYTES, signature.as_ref(), key, parse_recipe)
            .unwrap_err()
            .message(),
        "invalid catalog: long-lived bootstrap catalog must remain empty",
    );
}

#[test]
fn sizes_are_checked_before_signatures() {
    let large = vec![b' '; 524_289];
    assert!(matches!(check_sizes(&large, b"", b""), Err(Error::InvalidCatalog(_))));
    let long = vec![b' '; 4_097];
    assert_eq!(check_sizes(b"", &long, b"").unwrap_err(), Error::InvalidSignature);
    assert!(matches!(check_sizes(b"", b"", &[0_u8; 31]), Err(Error::InvalidCatalog(_))));
    assert!(check_sizes(b"", b"", &[0_u8; 32]).is_ok());
}

#[test]
fn bundled_key_and_clients() {
    assert_eq!(bundled_public_key().unwrap().len(), 32);
    let client = default_client(cache()).unwrap();
    assert_eq!(client.catalog_url, DEFAULT_CATALOG_URL);
    assert_eq!(client.signature_url, DEFAULT_SIGNATURE_URL);
    assert_eq!(client.public_key, bundled_public_key().unwrap());
    let verified = client
        .refresh(BUNDLED_CATALOG.as_bytes(), BUNDLED_SIGNATURE.as_bytes(), parse)
        .unwrap();
    let (catalog, signature) = client.cache.store(&verified);
    assert_eq!(catalog, BUNDLED_CATALOG.as_bytes());
    assert_eq!(hex(signature), BUNDLED_SIGNATURE.trim_end());
    assert!(client.refresh(b"{}", BUNDLED_SIGNATURE.as_bytes(), parse).is_err());
}

#[test]
fn caches_hold_what_was_signed_for_a_day() {
    let pair = pair();
    let client = CatalogClient::new(pair.public_key().as_ref().to_vec(), cache());
    let signature = pair.sign(BYTES).as_ref().to_vec();
    let kept = |age: u128| {
        Some(CachedCatalog { age, catalog: BYTES.to_vec(), signature: signature.clone() })
    };
    assert!(client.cached(&kept(0), parse).unwrap().is_some());
    assert!(client.cached(&kept(86_400_000_000_000), parse).unwrap().is_some());
    assert!(client.cached(&kept(86_400_000_000_001), parse).unwrap().is_none());
    assert!(client.cached(&None, parse).unwrap().is_none());
    let forged = Some(CachedCatalog { age: 0, catalog: b"{}".to_vec(), signature: signature.clone() });
    assert!(client.cached(&forged, parse).is_err());
    assert_eq!(client.cache.catalog_path().shown, "/data/cache/catalog.json");
    assert_eq!(client.cache.signature_path().shown, "/data/cache/catalog.sig");
    assert_eq!(client.cache.directory().shown, "/data/cache");
}

#[test]
fn cached_catalogs_are_preferred() {
    let pair = pair();
    let client = CatalogClient::new(pair.public_key().as_ref().to_vec(), cache());
    let signature = pair.sign(BYTES).as_ref().to_vec();
    let kept = Some(CachedCatalog { age: 0, catalog: BYTES.to_vec(), signature });
    assert_eq!(preferred_catalog(&client, &kept, parse).unwrap().exact_bytes, BYTES);
    assert_eq!(
        preferred_catalog(&client, &None, parse).unwrap().exact_bytes,
        BUNDLED_CATALOG.as_bytes(),
    );
}

#[test]
fn what_is_fetched_is_bounded() {
    assert!(check_endpoint("https://example.test/catalog.json").is_ok());
    assert!(check_endpoint("http://example.test/catalog.json").is_err());
    assert!(check_fetched(10, 10).is_ok());
    assert_eq!(check_fetched(11, 10).unwrap_err(), Error::DownloadTooLarge { limit: 10 });
    let path = Place::read("/data/cache/catalog.json", '/');
    assert!(check_file_size(&path, 10, 10).is_ok());
    assert!(check_file_size(&path, 11, 10).is_err());
    assert_eq!(trim_ascii(b" \n a b \t"), b"a b");
}
