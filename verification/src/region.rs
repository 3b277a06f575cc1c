//! The storage regions and their upload hosts.

use crate::text::same_text;
use vstd::prelude::*;

verus! {

/// The storage regions, see
/// <https://developer.qiniu.com/kodo/1671/region-endpoint-fq>.
#[derive(Debug, Clone, Copy, PartialEq, Eq, Structural)]
pub enum QiniuRegionEnum {
    Z0,
    CNEast2,
    Z1,
    Z2,
    NA0,
    AS0,
    APSouthEast2,
    APSouthEast3,
}

/// The error of a region name that no region has.
#[derive(Debug)]
pub struct UnknownRegion {
    pub name: String,
}

/// The name of a region.
pub open spec fn region_name(region: QiniuRegionEnum) -> Seq<char> {
    match region {
        QiniuRegionEnum::Z0 => "z0"@,
        QiniuRegionEnum::CNEast2 => "cn-east-2"@,
        QiniuRegionEnum::Z1 => "z1"@,
        QiniuRegionEnum::Z2 => "z2"@,
        QiniuRegionEnum::NA0 => "na0"@,
        QiniuRegionEnum::AS0 => "as0"@,
        QiniuRegionEnum::APSouthEast2 => "ap-southeast-2"@,
        QiniuRegionEnum::APSouthEast3 => "ap-southeast-3"@,
    }
}

/// The region of a name, where there is one.
pub open spec fn region_of(name: Seq<char>) -> Option<QiniuRegionEnum> {
    if name == "z0"@ {
        Some(QiniuRegionEnum::Z0)
    } else if name == "cn-east-2"@ {
        Some(QiniuRegionEnum::CNEast2)
    } else if name == "z1"@ {
        Some(QiniuRegionEnum::Z1)
    } else if name == "z2"@ {
        Some(QiniuRegionEnum::Z2)
    } else if name == "na0"@ {
        Some(QiniuRegionEnum::NA0)
    } else if name == "as0"@ {
        Some(QiniuRegionEnum::AS0)
    } else if name == "ap-southeast-2"@ {
        Some(QiniuRegionEnum::APSouthEast2)
    } else if name == "ap-southeast-3"@ {
        Some(QiniuRegionEnum::APSouthEast3)
    } else {
        None
    }
}

/// The upload host of a region.
pub open spec fn upload_host(region: QiniuRegionEnum) -> Seq<char> {
    match region {
        QiniuRegionEnum::Z0 => "https://up-z0.qiniup.com"@,
        QiniuRegionEnum::CNEast2 => "https://up-cn-east-2.qiniup.com"@,
        QiniuRegionEnum::Z1 => "https://up-z1.qiniup.com"@,
        QiniuRegionEnum::Z2 => "https://up-z2.qiniup.com"@,
        QiniuRegionEnum::NA0 => "https://up-na0.qiniup.com"@,
        QiniuRegionEnum::AS0 => "https://up-as0.qiniup.com"@,
        QiniuRegionEnum::APSouthEast2 => "https://up-ap-southeast-2.qiniup.com"@,
        QiniuRegionEnum::APSouthEast3 => "https://up-ap-southeast-3.qiniup.com"@,
    }
}

impl QiniuRegionEnum {
    /// The address that uploads to this region are sent to.
    pub fn get_upload_host(&self) -> (host: String)
        ensures
            host@ == upload_host(*self),
    {
        match self {
            QiniuRegionEnum::Z0 => String::from("https://up-z0.qiniup.com"),
            QiniuRegionEnum::Z1 => String::from("https://up-z1.qiniup.com"),
            QiniuRegionEnum::Z2 => String::from("https://up-z2.qiniup.com"),
            QiniuRegionEnum::NA0 => String::from("https://up-na0.qiniup.com"),
            QiniuRegionEnum::AS0 => String::from("https://up-as0.qiniup.com"),
            QiniuRegionEnum::APSouthEast2 => String::from("https://up-ap-southeast-2.qiniup.com"),
            QiniuRegionEnum::APSouthEast3 => String::from("https://up-ap-southeast-3.qiniup.com"),
            QiniuRegionEnum::CNEast2 => String::from("https://up-cn-east-2.qiniup.com"),
        }
    }

    /// The region of the given name.
    pub fn from_str(region: &str) -> (r: Result<QiniuRegionEnum, UnknownRegion>)
        ensures
            match r {
                Ok(found) => region_of(region@) == Some(found),
                Err(e) => region_of(region@) is None && e.name@ == region@,
            },
    {
        if same_text(region, "z0") {
            Ok(QiniuRegionEnum::Z0)
        } else if same_text(region, "cn-east-2") {
            Ok(QiniuRegionEnum::CNEast2)
        } else if same_text(region, "z1") {
            Ok(QiniuRegionEnum::Z1)
        } else if same_text(region, "z2") {
            Ok(QiniuRegionEnum::Z2)
        } else if same_text(region, "na0") {
            Ok(QiniuRegionEnum::NA0)
        } else if same_text(region, "as0") {
            Ok(QiniuRegionEnum::AS0)
        } else if same_text(region, "ap-southeast-2") {
            Ok(QiniuRegionEnum::APSouthEast2)
        } else if same_text(region, "ap-southeast-3") {
            Ok(QiniuRegionEnum::APSouthEast3)
        } else {
            Err(UnknownRegion { name: region.to_owned() })
        }
    }
}

impl std::str::FromStr for QiniuRegionEnum {
    type Err = UnknownRegion;

    fn from_str(region: &str) -> (r: Result<QiniuRegionEnum, UnknownRegion>)
        ensures
            match r {
                Ok(found) => region_of(region@) == Some(found),
                Err(e) => region_of(region@) is None && e.name@ == region@,
            },
    {
        QiniuRegionEnum::from_str(region)
    }
}

impl UnknownRegion {
    /// The text of the error.
    pub fn message(&self) -> (text: String)
        ensures
            text@ == "Unknow region: "@ + self.name@,
    {
        let mut text = String::from("Unknow region: ");
        text.append(self.name.as_str());
        text
    }
}

/// The upload host of every region is formed from its name.
pub proof fn lemma_host_of_name(region: QiniuRegionEnum)
    ensures
        upload_host(region) == "https://up-"@ + region_name(region) + ".qiniup.com"@,
{
    reveal_strlit("https://up-");
    reveal_strlit(".qiniup.com");
    match region {
        QiniuRegionEnum::Z0 => {
            reveal_strlit("z0");
            reveal_strlit("https://up-z0.qiniup.com");
        },
        QiniuRegionEnum::CNEast2 => {
            reveal_strlit("cn-east-2");
            reveal_strlit("https://up-cn-east-2.qiniup.com");
        },
        QiniuRegionEnum::Z1 => {
            reveal_strlit("z1");
            reveal_strlit("https://up-z1.qiniup.com");
        },
        QiniuRegionEnum::Z2 => {
            reveal_strlit("z2");
            reveal_strlit("https://up-z2.qiniup.com");
        },
        QiniuRegionEnum::NA0 => {
            reveal_strlit("na0");
            reveal_strlit("https://up-na0.qiniup.com");
        },
        QiniuRegionEnum::AS0 => {
            reveal_strlit("as0");
            reveal_strlit("https://up-as0.qiniup.com");
        },
        QiniuRegionEnum::APSouthEast2 => {
            reveal_strlit("ap-southeast-2");
            reveal_strlit("https://up-ap-southeast-2.qiniup.com");
        },
        QiniuRegionEnum::APSouthEast3 => {
            reveal_strlit("ap-southeast-3");
            reveal_strlit("https://up-ap-southeast-3.qiniup.com");
        },
    }
}

/// Every region is found by its name, and by no other.
pub proof fn lemma_region_of_name(name: Seq<char>, region: QiniuRegionEnum)
    ensures
        region_of(name) == Some(region) <==> name == region_name(region),
{
    reveal_strlit("z0");
    reveal_strlit("cn-east-2");
    reveal_strlit("z1");
    reveal_strlit("z2");
    reveal_strlit("na0");
    reveal_strlit("as0");
    reveal_strlit("ap-southeast-2");
    reveal_strlit("ap-southeast-3");
    if let Some(found) = region_of(name) {
        assert(name == region_name(found));
        if name == region_name(region) {
            assert(region_name(found)[0] == region_name(region)[0]);
            assert(region_name(found)[1] == region_name(region)[1]);
            assert(region_name(found).last() == region_name(region).last());
        }
    }
}

/// No two regions share an upload host.
pub proof fn lemma_upload_hosts_differ(a: QiniuRegionEnum, b: QiniuRegionEnum)
    ensures
        upload_host(a) == upload_host(b) ==> a == b,
{
    lemma_host_of_name(a);
    lemma_host_of_name(b);
    let head = "https://up-"@;
    let tail = ".qiniup.com"@;
    if upload_host(a) == upload_host(b) {
        let start = head.len() as int;
        let end = upload_host(a).len() - tail.len();
        assert(region_name(a) == upload_host(a).subrange(start, end));
        assert(region_name(b) == upload_host(b).subrange(start, end));
        lemma_region_of_name(region_name(a), a);
        lemma_region_of_name(region_name(a), b);
    }
}

} // verus!
