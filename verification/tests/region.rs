use qiniu_uploader::region::UnknownRegion;
use qiniu_uploader::QiniuRegionEnum;

const REGIONS: [(QiniuRegionEnum, &str, &str); 8] = [
    (QiniuRegionEnum::Z0, "z0", "https://up-z0.qiniup.com"),
    (QiniuRegionEnum::CNEast2, "cn-east-2", "https://up-cn-east-2.qiniup.com"),
    (QiniuRegionEnum::Z1, "z1", "https://up-z1.qiniup.com"),
    (QiniuRegionEnum::Z2, "z2", "https://up-z2.qiniup.com"),
    (QiniuRegionEnum::NA0, "na0", "https://up-na0.qiniup.com"),
    (QiniuRegionEnum::AS0, "as0", "https://up-as0.qiniup.com"),
    (QiniuRegionEnum::APSouthEast2, "ap-southeast-2", "https://up-ap-southeast-2.qiniup.com"),
    (QiniuRegionEnum::APSouthEast3, "ap-southeast-3", "https://up-ap-southeast-3.qiniup.com"),
];

#[test]
fn every_region_has_its_host() {
    for (region, _, host) in REGIONS {
        assert_eq!(region.get_upload_host(), host);
    }
}

#[test]
fn every_name_parses_to_its_region() {
    for (region, name, _) in REGIONS {
        assert_eq!(QiniuRegionEnum::from_str(name).unwrap(), region);
        let parsed: Result<QiniuRegionEnum, UnknownRegion> = name.parse();
        assert_eq!(parsed.unwrap(), region);
    }
}

#[test]
fn other_names_are_refused() {
    for name in ["", "z3", "Z0", "z0 ", "cn-east-1"] {
        let error = QiniuRegionEnum::from_str(name).unwrap_err();
        assert_eq!(error.name, name);
        assert_eq!(error.message(), format!("Unknow region: {}", name));
    }
}

#[test]
fn hosts_are_formed_from_names_and_differ() {
    for (region, name, _) in REGIONS {
        assert_eq!(region.get_upload_host(), format!("https://up-{}.qiniup.com", name));
        for (other, other_name, _) in REGIONS {
            if other != region {
                assert_ne!(other.get_upload_host(), region.get_upload_host());
                assert_ne!(other_name, name);
            }
        }
    }
}
