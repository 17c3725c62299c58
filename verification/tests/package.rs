use std::collections::BTreeMap;
use std::io::{Cursor, Write};

use hart_link::device::{
    CatalogLimits, DeviceCatalog, DeviceKey, DeviceProfile,
};
use hart_link::package::{import_package, PackageError, PackageLimits};
use zip::write::SimpleFileOptions;
use zip::ZipWriter;

fn profile(expanded_type: u16) -> DeviceProfile {
    DeviceProfile {
        key: DeviceKey { expanded_type, device_revision: 1 },
        display_name: format!("device-{expanded_type}"),
        source_revision: "test".into(),
        responses: BTreeMap::new(),
        response_codes: BTreeMap::new(),
    }
}

fn rendered(profile: &DeviceProfile) -> Vec<u8> {
    let mut key = serde_json::Map::new();
    key.insert("expanded_type".into(), profile.key.expanded_type.into());
    key.insert("device_revision".into(), profile.key.device_revision.into());
    let mut object = serde_json::Map::new();
    object.insert("key".into(), serde_json::Value::Object(key));
    object.insert("display_name".into(), profile.display_name.clone().into());
    object.insert("source_revision".into(), profile.source_revision.clone().into());
    serde_json::to_vec(&serde_json::Value::Object(object)).unwrap()
}

fn parsed(content: &[u8]) -> Result<DeviceProfile, String> {
    let value: serde_json::Value =
        serde_json::from_slice(content).map_err(|error| error.to_string())?;
    let number = |value: &serde_json::Value| value.as_u64().ok_or("missing number".to_string());
    let text = |value: &serde_json::Value| {
        value.as_str().map(String::from).ok_or("missing text".to_string())
    };
    let expanded_type = number(&value["key"]["expanded_type"])?;
    let device_revision = number(&value["key"]["device_revision"])?;
    Ok(DeviceProfile {
        key: DeviceKey {
            expanded_type: u16::try_from(expanded_type).map_err(|error| error.to_string())?,
            device_revision: u8::try_from(device_revision).map_err(|error| error.to_string())?,
        },
        display_name: text(&value["display_name"])?,
        source_revision: text(&value["source_revision"])?,
        responses: BTreeMap::new(),
        response_codes: BTreeMap::new(),
    })
}

fn package(entries: &[(&str, &DeviceProfile)]) -> Vec<u8> {
    let contents: Vec<(&str, Vec<u8>)> =
        entries.iter().map(|(name, profile)| (*name, rendered(profile))).collect();
    archive(&contents)
}

fn archive(entries: &[(&str, Vec<u8>)]) -> Vec<u8> {
    let mut writer = ZipWriter::new(Cursor::new(Vec::new()));
    for (name, content) in entries {
        writer.start_file(*name, SimpleFileOptions::default()).unwrap();
        writer.write_all(content).unwrap();
    }
    writer.finish().unwrap().into_inner()
}

#[test]
fn package_import_is_atomic_and_rejects_duplicate_device_revisions() {
    let existing = profile(1);
    let imported = profile(2);
    let mut catalog = DeviceCatalog::new();
    catalog.insert(existing.clone()).unwrap();
    let bytes = package(&[("first.json", &imported), ("duplicate.json", &imported)]);

    let error =
        import_package(&bytes, &mut catalog, PackageLimits::default(), parsed).unwrap_err();
    assert!(matches!(
        error,
        PackageError::DuplicateDevice { expanded_type: 2, device_revision: 1 }
    ));
    assert_eq!(catalog.len(), 1);
    assert!(catalog.resolve(existing.key).is_some());
    assert!(catalog.resolve(imported.key).is_none());
}

#[test]
fn package_rejects_the_container_before_zip_processing_when_it_is_too_large() {
    let bytes = package(&[("device.json", &profile(7))]);
    let maximum = bytes.len().saturating_sub(1);
    let mut catalog = DeviceCatalog::new();
    let error = import_package(
        &bytes,
        &mut catalog,
        PackageLimits::default().with_archive_bytes(maximum),
        parsed,
    )
    .unwrap_err();
    assert!(matches!(
        error,
        PackageError::ArchiveSize { actual, maximum: limit }
            if actual == bytes.len() && limit == maximum
    ));
    assert!(catalog.is_empty());
}

#[test]
fn package_catalog_limit_is_an_atomic_error_not_a_skipped_profile() {
    let existing = profile(1);
    let imported = profile(2);
    let mut catalog = DeviceCatalog::with_limits(CatalogLimits {
        profiles: 1,
        json_bytes: 1024 * 1024,
    })
    .unwrap();
    catalog.insert(existing.clone()).unwrap();
    let bytes = package(&[("device.json", &imported)]);
    assert!(matches!(
        import_package(&bytes, &mut catalog, PackageLimits::default(), parsed),
        Err(PackageError::Device(_))
    ));
    assert_eq!(catalog.len(), 1);
    assert!(catalog.resolve(existing.key).is_some());
    assert!(catalog.resolve(imported.key).is_none());
}

#[test]
fn package_loads_profiles_and_reports_json_that_is_none() {
    let mut catalog = DeviceCatalog::new();
    let bytes = archive(&[
        ("readme.txt", b"not looked at".to_vec()),
        ("profiles/two.json", rendered(&profile(2))),
        ("other.JSON", b"{}".to_vec()),
        ("three.json", rendered(&profile(3))),
    ]);
    let report =
        import_package(&bytes, &mut catalog, PackageLimits::default(), parsed).unwrap();
    assert_eq!(report.devices, vec![profile(2).key, profile(3).key]);
    assert_eq!(report.inspected_files, 4);
    assert_eq!(report.skipped_json, vec!["other.JSON".to_string()]);
    assert_eq!(catalog.resolve(profile(3).key).unwrap().display_name, "device-3");
}

#[test]
fn package_rejects_bytes_that_are_no_archive() {
    let mut catalog = DeviceCatalog::new();
    assert!(matches!(
        import_package(b"no archive", &mut catalog, PackageLimits::default(), parsed),
        Err(PackageError::Zip(_))
    ));
}

#[test]
fn package_limits_stop_too_many_or_too_large_files() {
    let bytes = package(&[("one.json", &profile(1)), ("two.json", &profile(2))]);
    let mut catalog = DeviceCatalog::new();
    assert!(matches!(
        import_package(
            &bytes,
            &mut catalog,
            PackageLimits::default().with_files(1),
            parsed
        ),
        Err(PackageError::FileCount)
    ));
    assert!(matches!(
        import_package(
            &bytes,
            &mut catalog,
            PackageLimits::default().with_file_bytes(4),
            parsed
        ),
        Err(PackageError::FileSize(_))
    ));
    assert!(matches!(
        import_package(
            &bytes,
            &mut catalog,
            PackageLimits::default().with_file_name_bytes(4),
            parsed
        ),
        Err(PackageError::FileNameSize(_))
    ));
    assert!(catalog.is_empty());
}
