//! The catalogue of key names, and the keys that are not in it.

use vstd::prelude::*;
use vstd::string::StringSliceAdditionalSpecFns;
use vstd::utf8::{encode_utf8, encode_utf8_decode_utf8};

verus! {

/// A key of the container: one of the catalogue's names, or any other text.
#[derive(Clone, Debug)]
pub enum Keys {
    /// `ACCOUNT_ID`
    AccountId,
    /// `ACCOUNTID`
    Accountid,
    /// `ANALOG_MODE`
    AnalogMode,
    /// `APP_VER`
    AppVer,
    /// `ATTRIBUTE`
    Attribute,
    /// `BOOTABLE`
    Bootable,
    /// `CATEGORY`
    Category,
    /// `CONTENT_ID`
    ContentId,
    /// `DETAIL`
    Detail,
    /// `GAMEDATA_ID`
    GamedataId,
    /// `ITEM_PRIORITY`
    ItemPriority,
    /// `LANG`
    Lang,
    /// `LICENSE`
    License,
    /// `NP_COMMUNICATION_ID`
    NpCommunicationId,
    /// `NP_COMM_ID`
    NpCommId,
    /// `PADDING`
    Padding,
    /// `PARAMS`
    Params,
    /// `PARAMS2`
    Params2,
    /// `PARENTAL_LEVEL_x`
    ParentalLevelX,
    /// `PARENTAL_LEVEL`
    ParentalLevel,
    /// `PARENTALLEVEL`
    Parantallevel,
    /// `PATCH_FILE`
    PatchFile,
    /// `PS3_SYSTEM_VER`
    Ps3SystemVer,
    /// `REGION_DENY`
    RegionDeny,
    /// `RESOLUTION`
    Resolution,
    /// `SAVEDATA_DETAIL`
    SavedataDetail,
    /// `SAVEDATA_DIRECTORY`
    SavedataDirectory,
    /// `SAVEDATA_FILE_LIST`
    SavedataFileList,
    /// `SAVEDATA_LIST_PARAM`
    SavedataListParam,
    /// `SAVEDATA_PARAMS`
    SavedataParams,
    /// `SAVEDATA_TITLE`
    SavedataTitle,
    /// `SOUND_FORMAT`
    SoundFormat,
    /// `SOURCE`
    Source,
    /// `SUB_TITLE`
    SubTitle,
    /// `TARGET_APP_VER`
    TargetAppVer,
    /// `TITLE`
    Title,
    /// `TITLE_ID`
    TitleId,
    /// `TITLE_XX`
    TitleXx,
    /// `TITLEID0XX`
    Titleid0xx,
    /// `VERSION`
    Version,
    /// `XMB_APPS`
    XmbApps,
    /// A name that the catalogue does not hold, word for word.
    Unknown(String),
}

/// Whether `text` is one of the catalogue's names.
pub open spec fn is_catalogue_name(text: Seq<char>) -> bool {
    ||| text == "ACCOUNT_ID"@
    ||| text == "ACCOUNTID"@
    ||| text == "ANALOG_MODE"@
    ||| text == "APP_VER"@
    ||| text == "ATTRIBUTE"@
    ||| text == "BOOTABLE"@
    ||| text == "CATEGORY"@
    ||| text == "CONTENT_ID"@
    ||| text == "DETAIL"@
    ||| text == "GAMEDATA_ID"@
    ||| text == "ITEM_PRIORITY"@
    ||| text == "LANG"@
    ||| text == "LICENSE"@
    ||| text == "NP_COMMUNICATION_ID"@
    ||| text == "NP_COMM_ID"@
    ||| text == "PADDING"@
    ||| text == "PARAMS"@
    ||| text == "PARAMS2"@
    ||| text == "PARENTAL_LEVEL_x"@
    ||| text == "PARENTAL_LEVEL"@
    ||| text == "PARENTALLEVEL"@
    ||| text == "PATCH_FILE"@
    ||| text == "PS3_SYSTEM_VER"@
    ||| text == "REGION_DENY"@
    ||| text == "RESOLUTION"@
    ||| text == "SAVEDATA_DETAIL"@
    ||| text == "SAVEDATA_DIRECTORY"@
    ||| text == "SAVEDATA_FILE_LIST"@
    ||| text == "SAVEDATA_LIST_PARAM"@
    ||| text == "SAVEDATA_PARAMS"@
    ||| text == "SAVEDATA_TITLE"@
    ||| text == "SOUND_FORMAT"@
    ||| text == "SOURCE"@
    ||| text == "SUB_TITLE"@
    ||| text == "TARGET_APP_VER"@
    ||| text == "TITLE"@
    ||| text == "TITLE_ID"@
    ||| text == "TITLE_XX"@
    ||| text == "TITLEID0XX"@
    ||| text == "VERSION"@
    ||| text == "XMB_APPS"@
}

/// Whether the two strings hold the same text.
pub fn same_text(a: &str, b: &str) -> (r: bool)
    ensures
        r == (a@ == b@),
{
    let x: &[u8] = a.as_bytes();
    let y: &[u8] = b.as_bytes();
    proof {
        encode_utf8_decode_utf8(a@);
        encode_utf8_decode_utf8(b@);
    }
    if x.len() != y.len() {
        return false;
    }
    let mut i: usize = 0;
    while i < x.len()
        invariant
            i <= x@.len(),
            x@.len() == y@.len(),
            x@ == encode_utf8(a@),
            y@ == encode_utf8(b@),
            forall|j: int| 0 <= j < i ==> x@[j] == y@[j],
        decreases x@.len() - i,
    {
        if x[i] != y[i] {
            return false;
        }
        i = i + 1;
    }
    assert(x@ =~= y@);
    true
}

impl View for Keys {
    type V = Seq<u8>;

    /// The bytes of the key's name, without a terminator.
    open spec fn view(&self) -> Seq<u8> {
        encode_utf8(self.text())
    }
}

impl Keys {
    /// The key's name.
    pub open spec fn text(&self) -> Seq<char> {
        match self {
            Keys::AccountId => "ACCOUNT_ID"@,
            Keys::Accountid => "ACCOUNTID"@,
            Keys::AnalogMode => "ANALOG_MODE"@,
            Keys::AppVer => "APP_VER"@,
            Keys::Attribute => "ATTRIBUTE"@,
            Keys::Bootable => "BOOTABLE"@,
            Keys::Category => "CATEGORY"@,
            Keys::ContentId => "CONTENT_ID"@,
            Keys::Detail => "DETAIL"@,
            Keys::GamedataId => "GAMEDATA_ID"@,
            Keys::ItemPriority => "ITEM_PRIORITY"@,
            Keys::Lang => "LANG"@,
            Keys::License => "LICENSE"@,
            Keys::NpCommunicationId => "NP_COMMUNICATION_ID"@,
            Keys::NpCommId => "NP_COMM_ID"@,
            Keys::Padding => "PADDING"@,
            Keys::Params => "PARAMS"@,
            Keys::Params2 => "PARAMS2"@,
            Keys::ParentalLevelX => "PARENTAL_LEVEL_x"@,
            Keys::ParentalLevel => "PARENTAL_LEVEL"@,
            Keys::Parantallevel => "PARENTALLEVEL"@,
            Keys::PatchFile => "PATCH_FILE"@,
            Keys::Ps3SystemVer => "PS3_SYSTEM_VER"@,
            Keys::RegionDeny => "REGION_DENY"@,
            Keys::Resolution => "RESOLUTION"@,
            Keys::SavedataDetail => "SAVEDATA_DETAIL"@,
            Keys::SavedataDirectory => "SAVEDATA_DIRECTORY"@,
            Keys::SavedataFileList => "SAVEDATA_FILE_LIST"@,
            Keys::SavedataListParam => "SAVEDATA_LIST_PARAM"@,
            Keys::SavedataParams => "SAVEDATA_PARAMS"@,
            Keys::SavedataTitle => "SAVEDATA_TITLE"@,
            Keys::SoundFormat => "SOUND_FORMAT"@,
            Keys::Source => "SOURCE"@,
            Keys::SubTitle => "SUB_TITLE"@,
            Keys::TargetAppVer => "TARGET_APP_VER"@,
            Keys::Title => "TITLE"@,
            Keys::TitleId => "TITLE_ID"@,
            Keys::TitleXx => "TITLE_XX"@,
            Keys::Titleid0xx => "TITLEID0XX"@,
            Keys::Version => "VERSION"@,
            Keys::XmbApps => "XMB_APPS"@,
            Keys::Unknown(s) => s@,
        }
    }

    /// The bytes that the key takes in the key table: its name and a
    /// terminating zero.
    pub open spec fn spec_len(&self) -> nat {
        self@.len() + 1
    }

    /// The key's name.
    pub fn as_str(&self) -> (r: &str)
        ensures
            r@ == self.text(),
            r.spec_bytes() == self@,
    {
        match self {
            Keys::AccountId => "ACCOUNT_ID",
            Keys::Accountid => "ACCOUNTID",
            Keys::AnalogMode => "ANALOG_MODE",
            Keys::AppVer => "APP_VER",
            Keys::Attribute => "ATTRIBUTE",
            Keys::Bootable => "BOOTABLE",
            Keys::Category => "CATEGORY",
            Keys::ContentId => "CONTENT_ID",
            Keys::Detail => "DETAIL",
            Keys::GamedataId => "GAMEDATA_ID",
            Keys::ItemPriority => "ITEM_PRIORITY",
            Keys::Lang => "LANG",
            Keys::License => "LICENSE",
            Keys::NpCommunicationId => "NP_COMMUNICATION_ID",
            Keys::NpCommId => "NP_COMM_ID",
            Keys::Padding => "PADDING",
            Keys::Params => "PARAMS",
            Keys::Params2 => "PARAMS2",
            Keys::ParentalLevelX => "PARENTAL_LEVEL_x",
            Keys::ParentalLevel => "PARENTAL_LEVEL",
            Keys::Parantallevel => "PARENTALLEVEL",
            Keys::PatchFile => "PATCH_FILE",
            Keys::Ps3SystemVer => "PS3_SYSTEM_VER",
            Keys::RegionDeny => "REGION_DENY",
            Keys::Resolution => "RESOLUTION",
            Keys::SavedataDetail => "SAVEDATA_DETAIL",
            Keys::SavedataDirectory => "SAVEDATA_DIRECTORY",
            Keys::SavedataFileList => "SAVEDATA_FILE_LIST",
            Keys::SavedataListParam => "SAVEDATA_LIST_PARAM",
            Keys::SavedataParams => "SAVEDATA_PARAMS",
            Keys::SavedataTitle => "SAVEDATA_TITLE",
            Keys::SoundFormat => "SOUND_FORMAT",
            Keys::Source => "SOURCE",
            Keys::SubTitle => "SUB_TITLE",
            Keys::TargetAppVer => "TARGET_APP_VER",
            Keys::Title => "TITLE",
            Keys::TitleId => "TITLE_ID",
            Keys::TitleXx => "TITLE_XX",
            Keys::Titleid0xx => "TITLEID0XX",
            Keys::Version => "VERSION",
            Keys::XmbApps => "XMB_APPS",
            Keys::Unknown(s) => s.as_str(),
        }
    }

    /// The key's name, as a string of its own.
    pub fn to_string(&self) -> (r: String)
        ensures
            r@ == self.text(),
    {
        self.as_str().to_owned()
    }

    /// The key that `s` names: the catalogue's entry where it has one of
    /// that name, and the text itself where it has none.
    pub fn from_str(s: &str) -> (k: Keys)
        ensures
            k.text() == s@,
            k.place() == catalogue_place(s@),
            k.is_resolved(),
            k is Unknown <==> !is_catalogue_name(s@),
    {
        if same_text(s, "ACCOUNT_ID") {
            Keys::AccountId
        } else if same_text(s, "ACCOUNTID") {
            Keys::Accountid
        } else if same_text(s, "ANALOG_MODE") {
            Keys::AnalogMode
        } else if same_text(s, "APP_VER") {
            Keys::AppVer
        } else if same_text(s, "ATTRIBUTE") {
            Keys::Attribute
        } else if same_text(s, "BOOTABLE") {
            Keys::Bootable
        } else if same_text(s, "CATEGORY") {
            Keys::Category
        } else if same_text(s, "CONTENT_ID") {
            Keys::ContentId
        } else if same_text(s, "DETAIL") {
            Keys::Detail
        } else if same_text(s, "GAMEDATA_ID") {
            Keys::GamedataId
        } else if same_text(s, "ITEM_PRIORITY") {
            Keys::ItemPriority
        } else if same_text(s, "LANG") {
            Keys::Lang
        } else if same_text(s, "LICENSE") {
            Keys::License
        } else if same_text(s, "NP_COMMUNICATION_ID") {
            Keys::NpCommunicationId
        } else if same_text(s, "NP_COMM_ID") {
            Keys::NpCommId
        } else if same_text(s, "PADDING") {
            Keys::Padding
        } else if same_text(s, "PARAMS") {
            Keys::Params
        } else if same_text(s, "PARAMS2") {
            Keys::Params2
        } else if same_text(s, "PARENTAL_LEVEL_x") {
            Keys::ParentalLevelX
        } else if same_text(s, "PARENTAL_LEVEL") {
            Keys::ParentalLevel
        } else if same_text(s, "PARENTALLEVEL") {
            Keys::Parantallevel
        } else if same_text(s, "PATCH_FILE") {
            Keys::PatchFile
        } else if same_text(s, "PS3_SYSTEM_VER") {
            Keys::Ps3SystemVer
        } else if same_text(s, "REGION_DENY") {
            Keys::RegionDeny
        } else if same_text(s, "RESOLUTION") {
            Keys::Resolution
        } else if same_text(s, "SAVEDATA_DETAIL") {
            Keys::SavedataDetail
        } else if same_text(s, "SAVEDATA_DIRECTORY") {
            Keys::SavedataDirectory
        } else if same_text(s, "SAVEDATA_FILE_LIST") {
            Keys::SavedataFileList
        } else if same_text(s, "SAVEDATA_LIST_PARAM") {
            Keys::SavedataListParam
        } else if same_text(s, "SAVEDATA_PARAMS") {
            Keys::SavedataParams
        } else if same_text(s, "SAVEDATA_TITLE") {
            Keys::SavedataTitle
        } else if same_text(s, "SOUND_FORMAT") {
            Keys::SoundFormat
        } else if same_text(s, "SOURCE") {
            Keys::Source
        } else if same_text(s, "SUB_TITLE") {
            Keys::SubTitle
        } else if same_text(s, "TARGET_APP_VER") {
            Keys::TargetAppVer
        } else if same_text(s, "TITLE") {
            Keys::Title
        } else if same_text(s, "TITLE_ID") {
            Keys::TitleId
        } else if same_text(s, "TITLE_XX") {
            Keys::TitleXx
        } else if same_text(s, "TITLEID0XX") {
            Keys::Titleid0xx
        } else if same_text(s, "VERSION") {
            Keys::Version
        } else if same_text(s, "XMB_APPS") {
            Keys::XmbApps
        } else {
            Keys::Unknown(s.to_owned())
        }
    }

    /// The bytes that the key takes in the key table. The sum must have
    /// room in a `usize`, as it has for every name that memory can hold.
    pub fn len(&self) -> (n: usize)
        requires
            self@.len() < usize::MAX,
        ensures
            n == self.spec_len(),
    {
        self.as_str().as_bytes().len() + 1
    }

    /// Whether the two keys have the same name.
    pub fn same(&self, other: &Keys) -> (r: bool)
        ensures
            r == (self@ == other@),
    {
        proof {
            encode_utf8_decode_utf8(self.text());
            encode_utf8_decode_utf8(other.text());
        }
        same_text(self.as_str(), other.as_str())
    }
}

/// The place of `text` in the catalogue, counted from 0; the number of
/// names in the catalogue where it is none of them.
pub open spec fn catalogue_place(text: Seq<char>) -> int {
    if text == "ACCOUNT_ID"@ {
        0
    } else if text == "ACCOUNTID"@ {
        1
    } else if text == "ANALOG_MODE"@ {
        2
    } else if text == "APP_VER"@ {
        3
    } else if text == "ATTRIBUTE"@ {
        4
    } else if text == "BOOTABLE"@ {
        5
    } else if text == "CATEGORY"@ {
        6
    } else if text == "CONTENT_ID"@ {
        7
    } else if text == "DETAIL"@ {
        8
    } else if text == "GAMEDATA_ID"@ {
        9
    } else if text == "ITEM_PRIORITY"@ {
        10
    } else if text == "LANG"@ {
        11
    } else if text == "LICENSE"@ {
        12
    } else if text == "NP_COMMUNICATION_ID"@ {
        13
    } else if text == "NP_COMM_ID"@ {
        14
    } else if text == "PADDING"@ {
        15
    } else if text == "PARAMS"@ {
        16
    } else if text == "PARAMS2"@ {
        17
    } else if text == "PARENTAL_LEVEL_x"@ {
        18
    } else if text == "PARENTAL_LEVEL"@ {
        19
    } else if text == "PARENTALLEVEL"@ {
        20
    } else if text == "PATCH_FILE"@ {
        21
    } else if text == "PS3_SYSTEM_VER"@ {
        22
    } else if text == "REGION_DENY"@ {
        23
    } else if text == "RESOLUTION"@ {
        24
    } else if text == "SAVEDATA_DETAIL"@ {
        25
    } else if text == "SAVEDATA_DIRECTORY"@ {
        26
    } else if text == "SAVEDATA_FILE_LIST"@ {
        27
    } else if text == "SAVEDATA_LIST_PARAM"@ {
        28
    } else if text == "SAVEDATA_PARAMS"@ {
        29
    } else if text == "SAVEDATA_TITLE"@ {
        30
    } else if text == "SOUND_FORMAT"@ {
        31
    } else if text == "SOURCE"@ {
        32
    } else if text == "SUB_TITLE"@ {
        33
    } else if text == "TARGET_APP_VER"@ {
        34
    } else if text == "TITLE"@ {
        35
    } else if text == "TITLE_ID"@ {
        36
    } else if text == "TITLE_XX"@ {
        37
    } else if text == "TITLEID0XX"@ {
        38
    } else if text == "VERSION"@ {
        39
    } else if text == "XMB_APPS"@ {
        40
    } else {
        41
    }
}

/// Makes known what every name of the catalogue holds.
proof fn lemma_names_known()
    ensures
        "ACCOUNT_ID"@.len() == 10,
        "ACCOUNTID"@.len() == 9,
        "ANALOG_MODE"@.len() == 11,
        "APP_VER"@.len() == 7,
        "ATTRIBUTE"@.len() == 9,
        "BOOTABLE"@.len() == 8,
        "CATEGORY"@.len() == 8,
        "CONTENT_ID"@.len() == 10,
        "DETAIL"@.len() == 6,
        "GAMEDATA_ID"@.len() == 11,
        "ITEM_PRIORITY"@.len() == 13,
        "LANG"@.len() == 4,
        "LICENSE"@.len() == 7,
        "NP_COMMUNICATION_ID"@.len() == 19,
        "NP_COMM_ID"@.len() == 10,
        "PADDING"@.len() == 7,
        "PARAMS"@.len() == 6,
        "PARAMS2"@.len() == 7,
        "PARENTAL_LEVEL_x"@.len() == 16,
        "PARENTAL_LEVEL"@.len() == 14,
        "PARENTALLEVEL"@.len() == 13,
        "PATCH_FILE"@.len() == 10,
        "PS3_SYSTEM_VER"@.len() == 14,
        "REGION_DENY"@.len() == 11,
        "RESOLUTION"@.len() == 10,
        "SAVEDATA_DETAIL"@.len() == 15,
        "SAVEDATA_DIRECTORY"@.len() == 18,
        "SAVEDATA_FILE_LIST"@.len() == 18,
        "SAVEDATA_LIST_PARAM"@.len() == 19,
        "SAVEDATA_PARAMS"@.len() == 15,
        "SAVEDATA_TITLE"@.len() == 14,
        "SOUND_FORMAT"@.len() == 12,
        "SOURCE"@.len() == 6,
        "SUB_TITLE"@.len() == 9,
        "TARGET_APP_VER"@.len() == 14,
        "TITLE"@.len() == 5,
        "TITLE_ID"@.len() == 8,
        "TITLE_XX"@.len() == 8,
        "TITLEID0XX"@.len() == 10,
        "VERSION"@.len() == 7,
        "XMB_APPS"@.len() == 8,
        "ACCOUNT_ID"@ == seq!['A', 'C', 'C', 'O', 'U', 'N', 'T', '_', 'I', 'D'],
        "ACCOUNTID"@ == seq!['A', 'C', 'C', 'O', 'U', 'N', 'T', 'I', 'D'],
        "ANALOG_MODE"@ == seq!['A', 'N', 'A', 'L', 'O', 'G', '_', 'M', 'O', 'D', 'E'],
        "APP_VER"@ == seq!['A', 'P', 'P', '_', 'V', 'E', 'R'],
        "ATTRIBUTE"@ == seq!['A', 'T', 'T', 'R', 'I', 'B', 'U', 'T', 'E'],
        "BOOTABLE"@ == seq!['B', 'O', 'O', 'T', 'A', 'B', 'L', 'E'],
        "CATEGORY"@ == seq!['C', 'A', 'T', 'E', 'G', 'O', 'R', 'Y'],
        "CONTENT_ID"@ == seq!['C', 'O', 'N', 'T', 'E', 'N', 'T', '_', 'I', 'D'],
        "DETAIL"@ == seq!['D', 'E', 'T', 'A', 'I', 'L'],
        "GAMEDATA_ID"@ == seq!['G', 'A', 'M', 'E', 'D', 'A', 'T', 'A', '_', 'I', 'D'],
        "ITEM_PRIORITY"@ == seq!['I', 'T', 'E', 'M', '_', 'P', 'R', 'I', 'O', 'R', 'I', 'T', 'Y'],
        "LANG"@ == seq!['L', 'A', 'N', 'G'],
        "LICENSE"@ == seq!['L', 'I', 'C', 'E', 'N', 'S', 'E'],
        "NP_COMMUNICATION_ID"@ == seq!['N', 'P', '_', 'C', 'O', 'M', 'M', 'U', 'N', 'I', 'C', 'A', 'T', 'I', 'O', 'N', '_', 'I', 'D'],
        "NP_COMM_ID"@ == seq!['N', 'P', '_', 'C', 'O', 'M', 'M', '_', 'I', 'D'],
        "PADDING"@ == seq!['P', 'A', 'D', 'D', 'I', 'N', 'G'],
        "PARAMS"@ == seq!['P', 'A', 'R', 'A', 'M', 'S'],
        "PARAMS2"@ == seq!['P', 'A', 'R', 'A', 'M', 'S', '2'],
        "PARENTAL_LEVEL_x"@ == seq!['P', 'A', 'R', 'E', 'N', 'T', 'A', 'L', '_', 'L', 'E', 'V', 'E', 'L', '_', 'x'],
        "PARENTAL_LEVEL"@ == seq!['P', 'A', 'R', 'E', 'N', 'T', 'A', 'L', '_', 'L', 'E', 'V', 'E', 'L'],
        "PARENTALLEVEL"@ == seq!['P', 'A', 'R', 'E', 'N', 'T', 'A', 'L', 'L', 'E', 'V', 'E', 'L'],
        "PATCH_FILE"@ == seq!['P', 'A', 'T', 'C', 'H', '_', 'F', 'I', 'L', 'E'],
        "PS3_SYSTEM_VER"@ == seq!['P', 'S', '3', '_', 'S', 'Y', 'S', 'T', 'E', 'M', '_', 'V', 'E', 'R'],
        "REGION_DENY"@ == seq!['R', 'E', 'G', 'I', 'O', 'N', '_', 'D', 'E', 'N', 'Y'],
        "RESOLUTION"@ == seq!['R', 'E', 'S', 'O', 'L', 'U', 'T', 'I', 'O', 'N'],
        "SAVEDATA_DETAIL"@ == seq!['S', 'A', 'V', 'E', 'D', 'A', 'T', 'A', '_', 'D', 'E', 'T', 'A', 'I', 'L'],
        "SAVEDATA_DIRECTORY"@ == seq!['S', 'A', 'V', 'E', 'D', 'A', 'T', 'A', '_', 'D', 'I', 'R', 'E', 'C', 'T', 'O', 'R', 'Y'],
        "SAVEDATA_FILE_LIST"@ == seq!['S', 'A', 'V', 'E', 'D', 'A', 'T', 'A', '_', 'F', 'I', 'L', 'E', '_', 'L', 'I', 'S', 'T'],
        "SAVEDATA_LIST_PARAM"@ == seq!['S', 'A', 'V', 'E', 'D', 'A', 'T', 'A', '_', 'L', 'I', 'S', 'T', '_', 'P', 'A', 'R', 'A', 'M'],
        "SAVEDATA_PARAMS"@ == seq!['S', 'A', 'V', 'E', 'D', 'A', 'T', 'A', '_', 'P', 'A', 'R', 'A', 'M', 'S'],
        "SAVEDATA_TITLE"@ == seq!['S', 'A', 'V', 'E', 'D', 'A', 'T', 'A', '_', 'T', 'I', 'T', 'L', 'E'],
        "SOUND_FORMAT"@ == seq!['S', 'O', 'U', 'N', 'D', '_', 'F', 'O', 'R', 'M', 'A', 'T'],
        "SOURCE"@ == seq!['S', 'O', 'U', 'R', 'C', 'E'],
        "SUB_TITLE"@ == seq!['S', 'U', 'B', '_', 'T', 'I', 'T', 'L', 'E'],
        "TARGET_APP_VER"@ == seq!['T', 'A', 'R', 'G', 'E', 'T', '_', 'A', 'P', 'P', '_', 'V', 'E', 'R'],
        "TITLE"@ == seq!['T', 'I', 'T', 'L', 'E'],
        "TITLE_ID"@ == seq!['T', 'I', 'T', 'L', 'E', '_', 'I', 'D'],
        "TITLE_XX"@ == seq!['T', 'I', 'T', 'L', 'E', '_', 'X', 'X'],
        "TITLEID0XX"@ == seq!['T', 'I', 'T', 'L', 'E', 'I', 'D', '0', 'X', 'X'],
        "VERSION"@ == seq!['V', 'E', 'R', 'S', 'I', 'O', 'N'],
        "XMB_APPS"@ == seq!['X', 'M', 'B', '_', 'A', 'P', 'P', 'S'],
{
    reveal_strlit("ACCOUNT_ID");
    reveal_strlit("ACCOUNTID");
    reveal_strlit("ANALOG_MODE");
    reveal_strlit("APP_VER");
    reveal_strlit("ATTRIBUTE");
    reveal_strlit("BOOTABLE");
    reveal_strlit("CATEGORY");
    reveal_strlit("CONTENT_ID");
    reveal_strlit("DETAIL");
    reveal_strlit("GAMEDATA_ID");
    reveal_strlit("ITEM_PRIORITY");
    reveal_strlit("LANG");
    reveal_strlit("LICENSE");
    reveal_strlit("NP_COMMUNICATION_ID");
    reveal_strlit("NP_COMM_ID");
    reveal_strlit("PADDING");
    reveal_strlit("PARAMS");
    reveal_strlit("PARAMS2");
    reveal_strlit("PARENTAL_LEVEL_x");
    reveal_strlit("PARENTAL_LEVEL");
    reveal_strlit("PARENTALLEVEL");
    reveal_strlit("PATCH_FILE");
    reveal_strlit("PS3_SYSTEM_VER");
    reveal_strlit("REGION_DENY");
    reveal_strlit("RESOLUTION");
    reveal_strlit("SAVEDATA_DETAIL");
    reveal_strlit("SAVEDATA_DIRECTORY");
    reveal_strlit("SAVEDATA_FILE_LIST");
    reveal_strlit("SAVEDATA_LIST_PARAM");
    reveal_strlit("SAVEDATA_PARAMS");
    reveal_strlit("SAVEDATA_TITLE");
    reveal_strlit("SOUND_FORMAT");
    reveal_strlit("SOURCE");
    reveal_strlit("SUB_TITLE");
    reveal_strlit("TARGET_APP_VER");
    reveal_strlit("TITLE");
    reveal_strlit("TITLE_ID");
    reveal_strlit("TITLE_XX");
    reveal_strlit("TITLEID0XX");
    reveal_strlit("VERSION");
    reveal_strlit("XMB_APPS");
    assert("ACCOUNT_ID"@ =~= seq!['A', 'C', 'C', 'O', 'U', 'N', 'T', '_', 'I', 'D']);
    assert("ACCOUNTID"@ =~= seq!['A', 'C', 'C', 'O', 'U', 'N', 'T', 'I', 'D']);
    assert("ANALOG_MODE"@ =~= seq!['A', 'N', 'A', 'L', 'O', 'G', '_', 'M', 'O', 'D', 'E']);
    assert("APP_VER"@ =~= seq!['A', 'P', 'P', '_', 'V', 'E', 'R']);
    assert("ATTRIBUTE"@ =~= seq!['A', 'T', 'T', 'R', 'I', 'B', 'U', 'T', 'E']);
    assert("BOOTABLE"@ =~= seq!['B', 'O', 'O', 'T', 'A', 'B', 'L', 'E']);
    assert("CATEGORY"@ =~= seq!['C', 'A', 'T', 'E', 'G', 'O', 'R', 'Y']);
    assert("CONTENT_ID"@ =~= seq!['C', 'O', 'N', 'T', 'E', 'N', 'T', '_', 'I', 'D']);
    assert("DETAIL"@ =~= seq!['D', 'E', 'T', 'A', 'I', 'L']);
    assert("GAMEDATA_ID"@ =~= seq!['G', 'A', 'M', 'E', 'D', 'A', 'T', 'A', '_', 'I', 'D']);
    assert("ITEM_PRIORITY"@ =~= seq!['I', 'T', 'E', 'M', '_', 'P', 'R', 'I', 'O', 'R', 'I', 'T', 'Y']);
    assert("LANG"@ =~= seq!['L', 'A', 'N', 'G']);
    assert("LICENSE"@ =~= seq!['L', 'I', 'C', 'E', 'N', 'S', 'E']);
    assert("NP_COMMUNICATION_ID"@ =~= seq!['N', 'P', '_', 'C', 'O', 'M', 'M', 'U', 'N', 'I', 'C', 'A', 'T', 'I', 'O', 'N', '_', 'I', 'D']);
    assert("NP_COMM_ID"@ =~= seq!['N', 'P', '_', 'C', 'O', 'M', 'M', '_', 'I', 'D']);
    assert("PADDING"@ =~= seq!['P', 'A', 'D', 'D', 'I', 'N', 'G']);
    assert("PARAMS"@ =~= seq!['P', 'A', 'R', 'A', 'M', 'S']);
    assert("PARAMS2"@ =~= seq!['P', 'A', 'R', 'A', 'M', 'S', '2']);
    assert("PARENTAL_LEVEL_x"@ =~= seq!['P', 'A', 'R', 'E', 'N', 'T', 'A', 'L', '_', 'L', 'E', 'V', 'E', 'L', '_', 'x']);
    assert("PARENTAL_LEVEL"@ =~= seq!['P', 'A', 'R', 'E', 'N', 'T', 'A', 'L', '_', 'L', 'E', 'V', 'E', 'L']);
    assert("PARENTALLEVEL"@ =~= seq!['P', 'A', 'R', 'E', 'N', 'T', 'A', 'L', 'L', 'E', 'V', 'E', 'L']);
    assert("PATCH_FILE"@ =~= seq!['P', 'A', 'T', 'C', 'H', '_', 'F', 'I', 'L', 'E']);
    assert("PS3_SYSTEM_VER"@ =~= seq!['P', 'S', '3', '_', 'S', 'Y', 'S', 'T', 'E', 'M', '_', 'V', 'E', 'R']);
    assert("REGION_DENY"@ =~= seq!['R', 'E', 'G', 'I', 'O', 'N', '_', 'D', 'E', 'N', 'Y']);
    assert("RESOLUTION"@ =~= seq!['R', 'E', 'S', 'O', 'L', 'U', 'T', 'I', 'O', 'N']);
    assert("SAVEDATA_DETAIL"@ =~= seq!['S', 'A', 'V', 'E', 'D', 'A', 'T', 'A', '_', 'D', 'E', 'T', 'A', 'I', 'L']);
    assert("SAVEDATA_DIRECTORY"@ =~= seq!['S', 'A', 'V', 'E', 'D', 'A', 'T', 'A', '_', 'D', 'I', 'R', 'E', 'C', 'T', 'O', 'R', 'Y']);
    assert("SAVEDATA_FILE_LIST"@ =~= seq!['S', 'A', 'V', 'E', 'D', 'A', 'T', 'A', '_', 'F', 'I', 'L', 'E', '_', 'L', 'I', 'S', 'T']);
    assert("SAVEDATA_LIST_PARAM"@ =~= seq!['S', 'A', 'V', 'E', 'D', 'A', 'T', 'A', '_', 'L', 'I', 'S', 'T', '_', 'P', 'A', 'R', 'A', 'M']);
    assert("SAVEDATA_PARAMS"@ =~= seq!['S', 'A', 'V', 'E', 'D', 'A', 'T', 'A', '_', 'P', 'A', 'R', 'A', 'M', 'S']);
    assert("SAVEDATA_TITLE"@ =~= seq!['S', 'A', 'V', 'E', 'D', 'A', 'T', 'A', '_', 'T', 'I', 'T', 'L', 'E']);
    assert("SOUND_FORMAT"@ =~= seq!['S', 'O', 'U', 'N', 'D', '_', 'F', 'O', 'R', 'M', 'A', 'T']);
    assert("SOURCE"@ =~= seq!['S', 'O', 'U', 'R', 'C', 'E']);
    assert("SUB_TITLE"@ =~= seq!['S', 'U', 'B', '_', 'T', 'I', 'T', 'L', 'E']);
    assert("TARGET_APP_VER"@ =~= seq!['T', 'A', 'R', 'G', 'E', 'T', '_', 'A', 'P', 'P', '_', 'V', 'E', 'R']);
    assert("TITLE"@ =~= seq!['T', 'I', 'T', 'L', 'E']);
    assert("TITLE_ID"@ =~= seq!['T', 'I', 'T', 'L', 'E', '_', 'I', 'D']);
    assert("TITLE_XX"@ =~= seq!['T', 'I', 'T', 'L', 'E', '_', 'X', 'X']);
    assert("TITLEID0XX"@ =~= seq!['T', 'I', 'T', 'L', 'E', 'I', 'D', '0', 'X', 'X']);
    assert("VERSION"@ =~= seq!['V', 'E', 'R', 'S', 'I', 'O', 'N']);
    assert("XMB_APPS"@ =~= seq!['X', 'M', 'B', '_', 'A', 'P', 'P', 'S']);
}

impl Keys {
    /// Whether the key is the catalogue's own where the catalogue has one
    /// of its name: a name of the catalogue never stands in `Unknown`.
    pub open spec fn is_resolved(&self) -> bool {
        self.place() == catalogue_place(self.text())
    }

    /// The place of the key in the catalogue, counted from 0; the number
    /// of names in the catalogue for a key that is not in it.
    pub open spec fn place(&self) -> int {
        match self {
            Keys::AccountId => 0,
            Keys::Accountid => 1,
            Keys::AnalogMode => 2,
            Keys::AppVer => 3,
            Keys::Attribute => 4,
            Keys::Bootable => 5,
            Keys::Category => 6,
            Keys::ContentId => 7,
            Keys::Detail => 8,
            Keys::GamedataId => 9,
            Keys::ItemPriority => 10,
            Keys::Lang => 11,
            Keys::License => 12,
            Keys::NpCommunicationId => 13,
            Keys::NpCommId => 14,
            Keys::Padding => 15,
            Keys::Params => 16,
            Keys::Params2 => 17,
            Keys::ParentalLevelX => 18,
            Keys::ParentalLevel => 19,
            Keys::Parantallevel => 20,
            Keys::PatchFile => 21,
            Keys::Ps3SystemVer => 22,
            Keys::RegionDeny => 23,
            Keys::Resolution => 24,
            Keys::SavedataDetail => 25,
            Keys::SavedataDirectory => 26,
            Keys::SavedataFileList => 27,
            Keys::SavedataListParam => 28,
            Keys::SavedataParams => 29,
            Keys::SavedataTitle => 30,
            Keys::SoundFormat => 31,
            Keys::Source => 32,
            Keys::SubTitle => 33,
            Keys::TargetAppVer => 34,
            Keys::Title => 35,
            Keys::TitleId => 36,
            Keys::TitleXx => 37,
            Keys::Titleid0xx => 38,
            Keys::Version => 39,
            Keys::XmbApps => 40,
            Keys::Unknown(_) => 41,
        }
    }
}

/// Every key of the catalogue stands at its own place: no two of them
/// have the same name.
pub proof fn lemma_place_of_name(key: Keys)
    requires
        !(key is Unknown),
    ensures
        catalogue_place(key.text()) == key.place(),
{
    lemma_names_known();
}

/// Two keys of the catalogue with the same name are the same key.
pub proof fn lemma_names_distinct(a: Keys, b: Keys)
    requires
        !(a is Unknown),
        !(b is Unknown),
        a.text() == b.text(),
    ensures
        a == b,
{
    lemma_place_of_name(a);
    lemma_place_of_name(b);
}

impl PartialEq for Keys {
    /// Two keys are equal where they have the same name.
    fn eq(&self, other: &Self) -> (r: bool) {
        self.same(other)
    }
}

impl vstd::std_specs::cmp::PartialEqSpecImpl for Keys {
    open spec fn obeys_eq_spec() -> bool {
        true
    }

    open spec fn eq_spec(&self, other: &Self) -> bool {
        self@ == other@
    }
}

impl Eq for Keys {

}

} // verus!