//! The schema registry: the static table mapping each numeric element
//! identifier to a name and a value kind. This table is the sole source of
//! truth for how a scalar payload is interpreted: an unsigned integer is the
//! minimal big-endian representation (1 to 8 bytes), text and binary carry an
//! explicit length. Unknown identifiers are legal everywhere: the registry
//! answers `None` and the rest of the pipeline treats such elements as opaque
//! and skippable, never as errors.

use vstd::prelude::*;

verus! {

use crate::vint::id_valid;

/// The value kind of a schema element.
#[derive(Clone, Copy, Debug, PartialEq, Eq, Structural)]
pub enum ElementKind {
    /// Unsigned integer, minimal big-endian representation.
    UInt,
    /// UTF-8 text, length-prefixed.
    Text,
    /// Opaque binary, length-prefixed.
    Binary,
    /// Container of child elements.
    Master,
}

pub const ID_EBML: u32 = 0x1A45_DFA3;

pub const ID_EBML_VERSION: u32 = 0x4286;

pub const ID_DOC_TYPE: u32 = 0x4282;

pub const ID_DOC_TYPE_VERSION: u32 = 0x4287;

pub const ID_DOC_TYPE_READ_VERSION: u32 = 0x4285;

pub const ID_GAME_CASE: u32 = 0x5B00;

pub const ID_INDEX: u32 = 0x5B01;

pub const ID_GAME: u32 = 0x5B02;

pub const ID_MANUALS: u32 = 0x5B03;

pub const ID_ROM_HACKS: u32 = 0x5B04;

pub const ID_MEDIA: u32 = 0x5B05;

pub const ID_INDEX_ENTRY: u32 = 0x5B06;

pub const ID_INDEX_TARGET_ID: u32 = 0x5B07;

pub const ID_INDEX_POSITION: u32 = 0x5B08;

pub const ID_INDEX_TARGET: u32 = 0x5B09;

pub const ID_INDEX_TARGET_CATEGORY: u32 = 0x5B0A;

pub const ID_INDEX_TARGET_REGION: u32 = 0x5B0B;

pub const ID_INDEX_TARGET_UID: u32 = 0x5B0C;

pub const ID_TITLE: u32 = 0x2E_8A00;

pub const ID_DEVELOPER: u32 = 0x2E_8A01;

pub const ID_GENRE: u32 = 0x2E_8A02;

pub const ID_MIN_PLAYERS: u32 = 0x2E_8A03;

pub const ID_MAX_PLAYERS: u32 = 0x2E_8A04;

pub const ID_GAME_SYSTEM: u32 = 0x2E_8A05;

pub const ID_DESCRIPTION: u32 = 0x2E_8A1C;

pub const ID_RATING: u32 = 0x2E_8A06;

pub const ID_REGION_INFO: u32 = 0x2E_8A07;

pub const ID_GAME_DATA: u32 = 0x2E_8A08;

pub const ID_RATING_VALUE: u32 = 0x1E8A_9B00;

pub const ID_RATING_SOURCE: u32 = 0x1E8A_9B01;

pub const ID_REGION: u32 = 0x1E8A_9B02;

pub const ID_LANGUAGE: u32 = 0x1E8A_9B03;

pub const ID_RELEASE_DATE: u32 = 0x1E8A_9B04;

pub const ID_PUBLISHER: u32 = 0x1E8A_9B05;

pub const ID_AGE_RATING: u32 = 0x1E8A_9B06;

pub const ID_GAME_DATA_ENTRY: u32 = 0x2E_8A09;

pub const ID_ENTRY_UID: u32 = 0x5B0D;

pub const ID_DATA_FORMAT: u32 = 0x2E_8A0A;

pub const ID_RAW_DATA: u32 = 0x2E_8A0B;

pub const ID_ARCHIVE_DATA: u32 = 0x2E_8A0C;

pub const ID_CHD_DATA: u32 = 0x2E_8A0D;

pub const ID_BIN_CUE_DATA: u32 = 0x2E_8A0E;

pub const ID_SSMC_DATA: u32 = 0x2E_8A0F;

pub const ID_FILE_PROPERTIES: u32 = 0x2E_8A10;

pub const ID_ROM_DATA: u32 = 0x1E8A_A000;

pub const ID_ROM_FILE_NAME: u32 = 0x1E8A_9B07;

pub const ID_ROM_FILE_SIZE: u32 = 0x1E8A_9B08;

pub const ID_CRC32: u32 = 0x1E8A_9B0B;

pub const ID_MD5: u32 = 0x1E8A_9B0C;

pub const ID_SHA1: u32 = 0x1E8A_9B0D;

pub const ID_SHA256: u32 = 0x1E8A_9B0E;

pub const ID_SHA512: u32 = 0x1E8A_9B0F;

pub const ID_SSMC_INDEX: u32 = 0x1E8A_9B10;

pub const ID_COMPRESSION_ALGORITHM: u32 = 0x1E8A_9B11;

pub const ID_ARCHIVED_FILE_COUNT: u32 = 0x1E8A_9B12;

pub const ID_ARCHIVE_FILE_METADATA: u32 = 0x2E_8A11;

pub const ID_ARCHIVE_BINARY: u32 = 0x1E8A_A001;

pub const ID_CHD_COUNT: u32 = 0x1E8A_9B14;

pub const ID_CHD_ENTRY: u32 = 0x2E_8A12;

pub const ID_DISC_NUM: u32 = 0x1E8A_9B15;

pub const ID_CHD_BINARY: u32 = 0x1E8A_A002;

pub const ID_BIN_CUE_COUNT: u32 = 0x1E8A_9B16;

pub const ID_BIN_CUE_ENTRY: u32 = 0x2E_8A13;

pub const ID_CUE_SHEET: u32 = 0x1E8A_9B17;

pub const ID_BIN_BINARY: u32 = 0x1E8A_A003;

pub const ID_SSMC_ENTRY: u32 = 0x2E_8A14;

pub const ID_SSMC_BINARY: u32 = 0x1E8A_A004;

pub const ID_MANUAL_ENTRY: u32 = 0x2E_8A15;

pub const ID_PAGE_COUNT: u32 = 0x1E8A_9B1A;

pub const ID_REVISION: u32 = 0x1E8A_9B1B;

pub const ID_MANUAL_FORMAT: u32 = 0x1E8A_9B1C;

pub const ID_MANUAL_DATA: u32 = 0x1E8A_A005;

pub const ID_ROM_HACK_ENTRY: u32 = 0x2E_8A16;

/// The registered elements of the GameCase document type.
#[derive(Clone, Copy, Debug, PartialEq, Eq, Structural)]
pub enum GCEbmlSpec {
    EBML,
    EBMLVersion,
    DocType,
    DocTypeVersion,
    DocTypeReadVersion,
    GameCase,
    Index,
    Game,
    Manuals,
    RomHacks,
    Media,
    IndexEntry,
    IndexTargetID,
    IndexPosition,
    IndexTarget,
    IndexTargetCategory,
    IndexTargetRegion,
    IndexTargetUID,
    Title,
    Developer,
    Genre,
    MinPlayers,
    MaxPlayers,
    GameSystem,
    Description,
    Rating,
    RegionInfo,
    GameData,
    RatingValue,
    RatingSource,
    Region,
    Language,
    ReleaseDate,
    Publisher,
    AgeRating,
    GameDataEntry,
    EntryUID,
    DataFormat,
    RawData,
    ArchiveData,
    ChdData,
    BinCueData,
    SSMCData,
    FileProperties,
    ROMData,
    ROMFileName,
    ROMFileSize,
    CRC32,
    MD5,
    SHA1,
    SHA256,
    SHA512,
    SSMCIndex,
    CompressionAlgorithm,
    ArchivedFileCount,
    ArchiveFileMetadata,
    ArchiveBinary,
    CHDCount,
    CHDEntry,
    DiscNum,
    CHDBinary,
    BinCueCount,
    BinCueEntry,
    CueSheet,
    BinBinary,
    SSMCEntry,
    SSMCBinary,
    ManualEntry,
    PageCount,
    Revision,
    ManualFormat,
    ManualData,
    RomHackEntry,
}

/// The value kind registered for an identifier, `None` when unknown.
pub open spec fn spec_kind_of(id: u32) -> Option<ElementKind> {
    if id == ID_EBML {
        Some(ElementKind::Master)
    } else if id == ID_EBML_VERSION {
        Some(ElementKind::UInt)
    } else if id == ID_DOC_TYPE {
        Some(ElementKind::Text)
    } else if id == ID_DOC_TYPE_VERSION {
        Some(ElementKind::UInt)
    } else if id == ID_DOC_TYPE_READ_VERSION {
        Some(ElementKind::UInt)
    } else if id == ID_GAME_CASE {
        Some(ElementKind::Master)
    } else if id == ID_INDEX {
        Some(ElementKind::Master)
    } else if id == ID_GAME {
        Some(ElementKind::Master)
    } else if id == ID_MANUALS {
        Some(ElementKind::Master)
    } else if id == ID_ROM_HACKS {
        Some(ElementKind::Master)
    } else if id == ID_MEDIA {
        Some(ElementKind::Master)
    } else if id == ID_INDEX_ENTRY {
        Some(ElementKind::Master)
    } else if id == ID_INDEX_TARGET_ID {
        Some(ElementKind::UInt)
    } else if id == ID_INDEX_POSITION {
        Some(ElementKind::UInt)
    } else if id == ID_INDEX_TARGET {
        Some(ElementKind::Text)
    } else if id == ID_INDEX_TARGET_CATEGORY {
        Some(ElementKind::Text)
    } else if id == ID_INDEX_TARGET_REGION {
        Some(ElementKind::Text)
    } else if id == ID_INDEX_TARGET_UID {
        Some(ElementKind::UInt)
    } else if id == ID_TITLE {
        Some(ElementKind::Text)
    } else if id == ID_DEVELOPER {
        Some(ElementKind::Text)
    } else if id == ID_GENRE {
        Some(ElementKind::Text)
    } else if id == ID_MIN_PLAYERS {
        Some(ElementKind::UInt)
    } else if id == ID_MAX_PLAYERS {
        Some(ElementKind::UInt)
    } else if id == ID_GAME_SYSTEM {
        Some(ElementKind::Text)
    } else if id == ID_DESCRIPTION {
        Some(ElementKind::Text)
    } else if id == ID_RATING {
        Some(ElementKind::Master)
    } else if id == ID_REGION_INFO {
        Some(ElementKind::Master)
    } else if id == ID_GAME_DATA {
        Some(ElementKind::Master)
    } else if id == ID_RATING_VALUE {
        Some(ElementKind::Text)
    } else if id == ID_RATING_SOURCE {
        Some(ElementKind::Text)
    } else if id == ID_REGION {
        Some(ElementKind::Text)
    } else if id == ID_LANGUAGE {
        Some(ElementKind::Text)
    } else if id == ID_RELEASE_DATE {
        Some(ElementKind::Binary)
    } else if id == ID_PUBLISHER {
        Some(ElementKind::Text)
    } else if id == ID_AGE_RATING {
        Some(ElementKind::Text)
    } else if id == ID_GAME_DATA_ENTRY {
        Some(ElementKind::Master)
    } else if id == ID_ENTRY_UID {
        Some(ElementKind::UInt)
    } else if id == ID_DATA_FORMAT {
        Some(ElementKind::Text)
    } else if id == ID_RAW_DATA {
        Some(ElementKind::Master)
    } else if id == ID_ARCHIVE_DATA {
        Some(ElementKind::Master)
    } else if id == ID_CHD_DATA {
        Some(ElementKind::Master)
    } else if id == ID_BIN_CUE_DATA {
        Some(ElementKind::Master)
    } else if id == ID_SSMC_DATA {
        Some(ElementKind::Master)
    } else if id == ID_FILE_PROPERTIES {
        Some(ElementKind::Master)
    } else if id == ID_ROM_DATA {
        Some(ElementKind::Binary)
    } else if id == ID_ROM_FILE_NAME {
        Some(ElementKind::Text)
    } else if id == ID_ROM_FILE_SIZE {
        Some(ElementKind::UInt)
    } else if id == ID_CRC32 {
        Some(ElementKind::Binary)
    } else if id == ID_MD5 {
        Some(ElementKind::Binary)
    } else if id == ID_SHA1 {
        Some(ElementKind::Binary)
    } else if id == ID_SHA256 {
        Some(ElementKind::Binary)
    } else if id == ID_SHA512 {
        Some(ElementKind::Binary)
    } else if id == ID_SSMC_INDEX {
        Some(ElementKind::UInt)
    } else if id == ID_COMPRESSION_ALGORITHM {
        Some(ElementKind::Text)
    } else if id == ID_ARCHIVED_FILE_COUNT {
        Some(ElementKind::UInt)
    } else if id == ID_ARCHIVE_FILE_METADATA {
        Some(ElementKind::Master)
    } else if id == ID_ARCHIVE_BINARY {
        Some(ElementKind::Binary)
    } else if id == ID_CHD_COUNT {
        Some(ElementKind::UInt)
    } else if id == ID_CHD_ENTRY {
        Some(ElementKind::Master)
    } else if id == ID_DISC_NUM {
        Some(ElementKind::UInt)
    } else if id == ID_CHD_BINARY {
        Some(ElementKind::Binary)
    } else if id == ID_BIN_CUE_COUNT {
        Some(ElementKind::UInt)
    } else if id == ID_BIN_CUE_ENTRY {
        Some(ElementKind::Master)
    } else if id == ID_CUE_SHEET {
        Some(ElementKind::Text)
    } else if id == ID_BIN_BINARY {
        Some(ElementKind::Binary)
    } else if id == ID_SSMC_ENTRY {
        Some(ElementKind::Master)
    } else if id == ID_SSMC_BINARY {
        Some(ElementKind::Binary)
    } else if id == ID_MANUAL_ENTRY {
        Some(ElementKind::Master)
    } else if id == ID_PAGE_COUNT {
        Some(ElementKind::UInt)
    } else if id == ID_REVISION {
        Some(ElementKind::Text)
    } else if id == ID_MANUAL_FORMAT {
        Some(ElementKind::Text)
    } else if id == ID_MANUAL_DATA {
        Some(ElementKind::Binary)
    } else if id == ID_ROM_HACK_ENTRY {
        Some(ElementKind::Master)
    } else {
        None
    }
}

/// Kind lookup by identifier; this is how the tag codec interprets scalars.
pub fn kind_of(id: u32) -> (r: Option<ElementKind>)
    ensures
        r == spec_kind_of(id),
{
    if id == ID_EBML {
        Some(ElementKind::Master)
    } else if id == ID_EBML_VERSION {
        Some(ElementKind::UInt)
    } else if id == ID_DOC_TYPE {
        Some(ElementKind::Text)
    } else if id == ID_DOC_TYPE_VERSION {
        Some(ElementKind::UInt)
    } else if id == ID_DOC_TYPE_READ_VERSION {
        Some(ElementKind::UInt)
    } else if id == ID_GAME_CASE {
        Some(ElementKind::Master)
    } else if id == ID_INDEX {
        Some(ElementKind::Master)
    } else if id == ID_GAME {
        Some(ElementKind::Master)
    } else if id == ID_MANUALS {
        Some(ElementKind::Master)
    } else if id == ID_ROM_HACKS {
        Some(ElementKind::Master)
    } else if id == ID_MEDIA {
        Some(ElementKind::Master)
    } else if id == ID_INDEX_ENTRY {
        Some(ElementKind::Master)
    } else if id == ID_INDEX_TARGET_ID {
        Some(ElementKind::UInt)
    } else if id == ID_INDEX_POSITION {
        Some(ElementKind::UInt)
    } else if id == ID_INDEX_TARGET {
        Some(ElementKind::Text)
    } else if id == ID_INDEX_TARGET_CATEGORY {
        Some(ElementKind::Text)
    } else if id == ID_INDEX_TARGET_REGION {
        Some(ElementKind::Text)
    } else if id == ID_INDEX_TARGET_UID {
        Some(ElementKind::UInt)
    } else if id == ID_TITLE {
        Some(ElementKind::Text)
    } else if id == ID_DEVELOPER {
        Some(ElementKind::Text)
    } else if id == ID_GENRE {
        Some(ElementKind::Text)
    } else if id == ID_MIN_PLAYERS {
        Some(ElementKind::UInt)
    } else if id == ID_MAX_PLAYERS {
        Some(ElementKind::UInt)
    } else if id == ID_GAME_SYSTEM {
        Some(ElementKind::Text)
    } else if id == ID_DESCRIPTION {
        Some(ElementKind::Text)
    } else if id == ID_RATING {
        Some(ElementKind::Master)
    } else if id == ID_REGION_INFO {
        Some(ElementKind::Master)
    } else if id == ID_GAME_DATA {
        Some(ElementKind::Master)
    } else if id == ID_RATING_VALUE {
        Some(ElementKind::Text)
    } else if id == ID_RATING_SOURCE {
        Some(ElementKind::Text)
    } else if id == ID_REGION {
        Some(ElementKind::Text)
    } else if id == ID_LANGUAGE {
        Some(ElementKind::Text)
    } else if id == ID_RELEASE_DATE {
        Some(ElementKind::Binary)
    } else if id == ID_PUBLISHER {
        Some(ElementKind::Text)
    } else if id == ID_AGE_RATING {
        Some(ElementKind::Text)
    } else if id == ID_GAME_DATA_ENTRY {
        Some(ElementKind::Master)
    } else if id == ID_ENTRY_UID {
        Some(ElementKind::UInt)
    } else if id == ID_DATA_FORMAT {
        Some(ElementKind::Text)
    } else if id == ID_RAW_DATA {
        Some(ElementKind::Master)
    } else if id == ID_ARCHIVE_DATA {
        Some(ElementKind::Master)
    } else if id == ID_CHD_DATA {
        Some(ElementKind::Master)
    } else if id == ID_BIN_CUE_DATA {
        Some(ElementKind::Master)
    } else if id == ID_SSMC_DATA {
        Some(ElementKind::Master)
    } else if id == ID_FILE_PROPERTIES {
        Some(ElementKind::Master)
    } else if id == ID_ROM_DATA {
        Some(ElementKind::Binary)
    } else if id == ID_ROM_FILE_NAME {
        Some(ElementKind::Text)
    } else if id == ID_ROM_FILE_SIZE {
        Some(ElementKind::UInt)
    } else if id == ID_CRC32 {
        Some(ElementKind::Binary)
    } else if id == ID_MD5 {
        Some(ElementKind::Binary)
    } else if id == ID_SHA1 {
        Some(ElementKind::Binary)
    } else if id == ID_SHA256 {
        Some(ElementKind::Binary)
    } else if id == ID_SHA512 {
        Some(ElementKind::Binary)
    } else if id == ID_SSMC_INDEX {
        Some(ElementKind::UInt)
    } else if id == ID_COMPRESSION_ALGORITHM {
        Some(ElementKind::Text)
    } else if id == ID_ARCHIVED_FILE_COUNT {
        Some(ElementKind::UInt)
    } else if id == ID_ARCHIVE_FILE_METADATA {
        Some(ElementKind::Master)
    } else if id == ID_ARCHIVE_BINARY {
        Some(ElementKind::Binary)
    } else if id == ID_CHD_COUNT {
        Some(ElementKind::UInt)
    } else if id == ID_CHD_ENTRY {
        Some(ElementKind::Master)
    } else if id == ID_DISC_NUM {
        Some(ElementKind::UInt)
    } else if id == ID_CHD_BINARY {
        Some(ElementKind::Binary)
    } else if id == ID_BIN_CUE_COUNT {
        Some(ElementKind::UInt)
    } else if id == ID_BIN_CUE_ENTRY {
        Some(ElementKind::Master)
    } else if id == ID_CUE_SHEET {
        Some(ElementKind::Text)
    } else if id == ID_BIN_BINARY {
        Some(ElementKind::Binary)
    } else if id == ID_SSMC_ENTRY {
        Some(ElementKind::Master)
    } else if id == ID_SSMC_BINARY {
        Some(ElementKind::Binary)
    } else if id == ID_MANUAL_ENTRY {
        Some(ElementKind::Master)
    } else if id == ID_PAGE_COUNT {
        Some(ElementKind::UInt)
    } else if id == ID_REVISION {
        Some(ElementKind::Text)
    } else if id == ID_MANUAL_FORMAT {
        Some(ElementKind::Text)
    } else if id == ID_MANUAL_DATA {
        Some(ElementKind::Binary)
    } else if id == ID_ROM_HACK_ENTRY {
        Some(ElementKind::Master)
    } else {
        None
    }
}

impl GCEbmlSpec {
    /// The fixed identifier of this element.
    pub open spec fn spec_id(self) -> u32 {
        match self {
            GCEbmlSpec::EBML => ID_EBML,
            GCEbmlSpec::EBMLVersion => ID_EBML_VERSION,
            GCEbmlSpec::DocType => ID_DOC_TYPE,
            GCEbmlSpec::DocTypeVersion => ID_DOC_TYPE_VERSION,
            GCEbmlSpec::DocTypeReadVersion => ID_DOC_TYPE_READ_VERSION,
            GCEbmlSpec::GameCase => ID_GAME_CASE,
            GCEbmlSpec::Index => ID_INDEX,
            GCEbmlSpec::Game => ID_GAME,
            GCEbmlSpec::Manuals => ID_MANUALS,
            GCEbmlSpec::RomHacks => ID_ROM_HACKS,
            GCEbmlSpec::Media => ID_MEDIA,
            GCEbmlSpec::IndexEntry => ID_INDEX_ENTRY,
            GCEbmlSpec::IndexTargetID => ID_INDEX_TARGET_ID,
            GCEbmlSpec::IndexPosition => ID_INDEX_POSITION,
            GCEbmlSpec::IndexTarget => ID_INDEX_TARGET,
            GCEbmlSpec::IndexTargetCategory => ID_INDEX_TARGET_CATEGORY,
            GCEbmlSpec::IndexTargetRegion => ID_INDEX_TARGET_REGION,
            GCEbmlSpec::IndexTargetUID => ID_INDEX_TARGET_UID,
            GCEbmlSpec::Title => ID_TITLE,
            GCEbmlSpec::Developer => ID_DEVELOPER,
            GCEbmlSpec::Genre => ID_GENRE,
            GCEbmlSpec::MinPlayers => ID_MIN_PLAYERS,
            GCEbmlSpec::MaxPlayers => ID_MAX_PLAYERS,
            GCEbmlSpec::GameSystem => ID_GAME_SYSTEM,
            GCEbmlSpec::Description => ID_DESCRIPTION,
            GCEbmlSpec::Rating => ID_RATING,
            GCEbmlSpec::RegionInfo => ID_REGION_INFO,
            GCEbmlSpec::GameData => ID_GAME_DATA,
            GCEbmlSpec::RatingValue => ID_RATING_VALUE,
            GCEbmlSpec::RatingSource => ID_RATING_SOURCE,
            GCEbmlSpec::Region => ID_REGION,
            GCEbmlSpec::Language => ID_LANGUAGE,
            GCEbmlSpec::ReleaseDate => ID_RELEASE_DATE,
            GCEbmlSpec::Publisher => ID_PUBLISHER,
            GCEbmlSpec::AgeRating => ID_AGE_RATING,
            GCEbmlSpec::GameDataEntry => ID_GAME_DATA_ENTRY,
            GCEbmlSpec::EntryUID => ID_ENTRY_UID,
            GCEbmlSpec::DataFormat => ID_DATA_FORMAT,
            GCEbmlSpec::RawData => ID_RAW_DATA,
            GCEbmlSpec::ArchiveData => ID_ARCHIVE_DATA,
            GCEbmlSpec::ChdData => ID_CHD_DATA,
            GCEbmlSpec::BinCueData => ID_BIN_CUE_DATA,
            GCEbmlSpec::SSMCData => ID_SSMC_DATA,
            GCEbmlSpec::FileProperties => ID_FILE_PROPERTIES,
            GCEbmlSpec::ROMData => ID_ROM_DATA,
            GCEbmlSpec::ROMFileName => ID_ROM_FILE_NAME,
            GCEbmlSpec::ROMFileSize => ID_ROM_FILE_SIZE,
            GCEbmlSpec::CRC32 => ID_CRC32,
            GCEbmlSpec::MD5 => ID_MD5,
            GCEbmlSpec::SHA1 => ID_SHA1,
            GCEbmlSpec::SHA256 => ID_SHA256,
            GCEbmlSpec::SHA512 => ID_SHA512,
            GCEbmlSpec::SSMCIndex => ID_SSMC_INDEX,
            GCEbmlSpec::CompressionAlgorithm => ID_COMPRESSION_ALGORITHM,
            GCEbmlSpec::ArchivedFileCount => ID_ARCHIVED_FILE_COUNT,
            GCEbmlSpec::ArchiveFileMetadata => ID_ARCHIVE_FILE_METADATA,
            GCEbmlSpec::ArchiveBinary => ID_ARCHIVE_BINARY,
            GCEbmlSpec::CHDCount => ID_CHD_COUNT,
            GCEbmlSpec::CHDEntry => ID_CHD_ENTRY,
            GCEbmlSpec::DiscNum => ID_DISC_NUM,
            GCEbmlSpec::CHDBinary => ID_CHD_BINARY,
            GCEbmlSpec::BinCueCount => ID_BIN_CUE_COUNT,
            GCEbmlSpec::BinCueEntry => ID_BIN_CUE_ENTRY,
            GCEbmlSpec::CueSheet => ID_CUE_SHEET,
            GCEbmlSpec::BinBinary => ID_BIN_BINARY,
            GCEbmlSpec::SSMCEntry => ID_SSMC_ENTRY,
            GCEbmlSpec::SSMCBinary => ID_SSMC_BINARY,
            GCEbmlSpec::ManualEntry => ID_MANUAL_ENTRY,
            GCEbmlSpec::PageCount => ID_PAGE_COUNT,
            GCEbmlSpec::Revision => ID_REVISION,
            GCEbmlSpec::ManualFormat => ID_MANUAL_FORMAT,
            GCEbmlSpec::ManualData => ID_MANUAL_DATA,
            GCEbmlSpec::RomHackEntry => ID_ROM_HACK_ENTRY,
        }
    }

    pub fn id(&self) -> (r: u32)
        ensures
            r == self.spec_id(),
    {
        match self {
            GCEbmlSpec::EBML => ID_EBML,
            GCEbmlSpec::EBMLVersion => ID_EBML_VERSION,
            GCEbmlSpec::DocType => ID_DOC_TYPE,
            GCEbmlSpec::DocTypeVersion => ID_DOC_TYPE_VERSION,
            GCEbmlSpec::DocTypeReadVersion => ID_DOC_TYPE_READ_VERSION,
            GCEbmlSpec::GameCase => ID_GAME_CASE,
            GCEbmlSpec::Index => ID_INDEX,
            GCEbmlSpec::Game => ID_GAME,
            GCEbmlSpec::Manuals => ID_MANUALS,
            GCEbmlSpec::RomHacks => ID_ROM_HACKS,
            GCEbmlSpec::Media => ID_MEDIA,
            GCEbmlSpec::IndexEntry => ID_INDEX_ENTRY,
            GCEbmlSpec::IndexTargetID => ID_INDEX_TARGET_ID,
            GCEbmlSpec::IndexPosition => ID_INDEX_POSITION,
            GCEbmlSpec::IndexTarget => ID_INDEX_TARGET,
            GCEbmlSpec::IndexTargetCategory => ID_INDEX_TARGET_CATEGORY,
            GCEbmlSpec::IndexTargetRegion => ID_INDEX_TARGET_REGION,
            GCEbmlSpec::IndexTargetUID => ID_INDEX_TARGET_UID,
            GCEbmlSpec::Title => ID_TITLE,
            GCEbmlSpec::Developer => ID_DEVELOPER,
            GCEbmlSpec::Genre => ID_GENRE,
            GCEbmlSpec::MinPlayers => ID_MIN_PLAYERS,
            GCEbmlSpec::MaxPlayers => ID_MAX_PLAYERS,
            GCEbmlSpec::GameSystem => ID_GAME_SYSTEM,
            GCEbmlSpec::Description => ID_DESCRIPTION,
            GCEbmlSpec::Rating => ID_RATING,
            GCEbmlSpec::RegionInfo => ID_REGION_INFO,
            GCEbmlSpec::GameData => ID_GAME_DATA,
            GCEbmlSpec::RatingValue => ID_RATING_VALUE,
            GCEbmlSpec::RatingSource => ID_RATING_SOURCE,
            GCEbmlSpec::Region => ID_REGION,
            GCEbmlSpec::Language => ID_LANGUAGE,
            GCEbmlSpec::ReleaseDate => ID_RELEASE_DATE,
            GCEbmlSpec::Publisher => ID_PUBLISHER,
            GCEbmlSpec::AgeRating => ID_AGE_RATING,
            GCEbmlSpec::GameDataEntry => ID_GAME_DATA_ENTRY,
            GCEbmlSpec::EntryUID => ID_ENTRY_UID,
            GCEbmlSpec::DataFormat => ID_DATA_FORMAT,
            GCEbmlSpec::RawData => ID_RAW_DATA,
            GCEbmlSpec::ArchiveData => ID_ARCHIVE_DATA,
            GCEbmlSpec::ChdData => ID_CHD_DATA,
            GCEbmlSpec::BinCueData => ID_BIN_CUE_DATA,
            GCEbmlSpec::SSMCData => ID_SSMC_DATA,
            GCEbmlSpec::FileProperties => ID_FILE_PROPERTIES,
            GCEbmlSpec::ROMData => ID_ROM_DATA,
            GCEbmlSpec::ROMFileName => ID_ROM_FILE_NAME,
            GCEbmlSpec::ROMFileSize => ID_ROM_FILE_SIZE,
            GCEbmlSpec::CRC32 => ID_CRC32,
            GCEbmlSpec::MD5 => ID_MD5,
            GCEbmlSpec::SHA1 => ID_SHA1,
            GCEbmlSpec::SHA256 => ID_SHA256,
            GCEbmlSpec::SHA512 => ID_SHA512,
            GCEbmlSpec::SSMCIndex => ID_SSMC_INDEX,
            GCEbmlSpec::CompressionAlgorithm => ID_COMPRESSION_ALGORITHM,
            GCEbmlSpec::ArchivedFileCount => ID_ARCHIVED_FILE_COUNT,
            GCEbmlSpec::ArchiveFileMetadata => ID_ARCHIVE_FILE_METADATA,
            GCEbmlSpec::ArchiveBinary => ID_ARCHIVE_BINARY,
            GCEbmlSpec::CHDCount => ID_CHD_COUNT,
            GCEbmlSpec::CHDEntry => ID_CHD_ENTRY,
            GCEbmlSpec::DiscNum => ID_DISC_NUM,
            GCEbmlSpec::CHDBinary => ID_CHD_BINARY,
            GCEbmlSpec::BinCueCount => ID_BIN_CUE_COUNT,
            GCEbmlSpec::BinCueEntry => ID_BIN_CUE_ENTRY,
            GCEbmlSpec::CueSheet => ID_CUE_SHEET,
            GCEbmlSpec::BinBinary => ID_BIN_BINARY,
            GCEbmlSpec::SSMCEntry => ID_SSMC_ENTRY,
            GCEbmlSpec::SSMCBinary => ID_SSMC_BINARY,
            GCEbmlSpec::ManualEntry => ID_MANUAL_ENTRY,
            GCEbmlSpec::PageCount => ID_PAGE_COUNT,
            GCEbmlSpec::Revision => ID_REVISION,
            GCEbmlSpec::ManualFormat => ID_MANUAL_FORMAT,
            GCEbmlSpec::ManualData => ID_MANUAL_DATA,
            GCEbmlSpec::RomHackEntry => ID_ROM_HACK_ENTRY,
        }
    }

    /// The registered value kind of this element.
    pub open spec fn spec_kind(self) -> ElementKind {
        match self {
            GCEbmlSpec::EBML => ElementKind::Master,
            GCEbmlSpec::EBMLVersion => ElementKind::UInt,
            GCEbmlSpec::DocType => ElementKind::Text,
            GCEbmlSpec::DocTypeVersion => ElementKind::UInt,
            GCEbmlSpec::DocTypeReadVersion => ElementKind::UInt,
            GCEbmlSpec::GameCase => ElementKind::Master,
            GCEbmlSpec::Index => ElementKind::Master,
            GCEbmlSpec::Game => ElementKind::Master,
            GCEbmlSpec::Manuals => ElementKind::Master,
            GCEbmlSpec::RomHacks => ElementKind::Master,
            GCEbmlSpec::Media => ElementKind::Master,
            GCEbmlSpec::IndexEntry => ElementKind::Master,
            GCEbmlSpec::IndexTargetID => ElementKind::UInt,
            GCEbmlSpec::IndexPosition => ElementKind::UInt,
            GCEbmlSpec::IndexTarget => ElementKind::Text,
            GCEbmlSpec::IndexTargetCategory => ElementKind::Text,
            GCEbmlSpec::IndexTargetRegion => ElementKind::Text,
            GCEbmlSpec::IndexTargetUID => ElementKind::UInt,
            GCEbmlSpec::Title => ElementKind::Text,
            GCEbmlSpec::Developer => ElementKind::Text,
            GCEbmlSpec::Genre => ElementKind::Text,
            GCEbmlSpec::MinPlayers => ElementKind::UInt,
            GCEbmlSpec::MaxPlayers => ElementKind::UInt,
            GCEbmlSpec::GameSystem => ElementKind::Text,
            GCEbmlSpec::Description => ElementKind::Text,
            GCEbmlSpec::Rating => ElementKind::Master,
            GCEbmlSpec::RegionInfo => ElementKind::Master,
            GCEbmlSpec::GameData => ElementKind::Master,
            GCEbmlSpec::RatingValue => ElementKind::Text,
            GCEbmlSpec::RatingSource => ElementKind::Text,
            GCEbmlSpec::Region => ElementKind::Text,
            GCEbmlSpec::Language => ElementKind::Text,
            GCEbmlSpec::ReleaseDate => ElementKind::Binary,
            GCEbmlSpec::Publisher => ElementKind::Text,
            GCEbmlSpec::AgeRating => ElementKind::Text,
            GCEbmlSpec::GameDataEntry => ElementKind::Master,
            GCEbmlSpec::EntryUID => ElementKind::UInt,
            GCEbmlSpec::DataFormat => ElementKind::Text,
            GCEbmlSpec::RawData => ElementKind::Master,
            GCEbmlSpec::ArchiveData => ElementKind::Master,
            GCEbmlSpec::ChdData => ElementKind::Master,
            GCEbmlSpec::BinCueData => ElementKind::Master,
            GCEbmlSpec::SSMCData => ElementKind::Master,
            GCEbmlSpec::FileProperties => ElementKind::Master,
            GCEbmlSpec::ROMData => ElementKind::Binary,
            GCEbmlSpec::ROMFileName => ElementKind::Text,
            GCEbmlSpec::ROMFileSize => ElementKind::UInt,
            GCEbmlSpec::CRC32 => ElementKind::Binary,
            GCEbmlSpec::MD5 => ElementKind::Binary,
            GCEbmlSpec::SHA1 => ElementKind::Binary,
            GCEbmlSpec::SHA256 => ElementKind::Binary,
            GCEbmlSpec::SHA512 => ElementKind::Binary,
            GCEbmlSpec::SSMCIndex => ElementKind::UInt,
            GCEbmlSpec::CompressionAlgorithm => ElementKind::Text,
            GCEbmlSpec::ArchivedFileCount => ElementKind::UInt,
            GCEbmlSpec::ArchiveFileMetadata => ElementKind::Master,
            GCEbmlSpec::ArchiveBinary => ElementKind::Binary,
            GCEbmlSpec::CHDCount => ElementKind::UInt,
            GCEbmlSpec::CHDEntry => ElementKind::Master,
            GCEbmlSpec::DiscNum => ElementKind::UInt,
            GCEbmlSpec::CHDBinary => ElementKind::Binary,
            GCEbmlSpec::BinCueCount => ElementKind::UInt,
            GCEbmlSpec::BinCueEntry => ElementKind::Master,
            GCEbmlSpec::CueSheet => ElementKind::Text,
            GCEbmlSpec::BinBinary => ElementKind::Binary,
            GCEbmlSpec::SSMCEntry => ElementKind::Master,
            GCEbmlSpec::SSMCBinary => ElementKind::Binary,
            GCEbmlSpec::ManualEntry => ElementKind::Master,
            GCEbmlSpec::PageCount => ElementKind::UInt,
            GCEbmlSpec::Revision => ElementKind::Text,
            GCEbmlSpec::ManualFormat => ElementKind::Text,
            GCEbmlSpec::ManualData => ElementKind::Binary,
            GCEbmlSpec::RomHackEntry => ElementKind::Master,
        }
    }

    pub fn kind(&self) -> (r: ElementKind)
        ensures
            r == self.spec_kind(),
    {
        match self {
            GCEbmlSpec::EBML => ElementKind::Master,
            GCEbmlSpec::EBMLVersion => ElementKind::UInt,
            GCEbmlSpec::DocType => ElementKind::Text,
            GCEbmlSpec::DocTypeVersion => ElementKind::UInt,
            GCEbmlSpec::DocTypeReadVersion => ElementKind::UInt,
            GCEbmlSpec::GameCase => ElementKind::Master,
            GCEbmlSpec::Index => ElementKind::Master,
            GCEbmlSpec::Game => ElementKind::Master,
            GCEbmlSpec::Manuals => ElementKind::Master,
            GCEbmlSpec::RomHacks => ElementKind::Master,
            GCEbmlSpec::Media => ElementKind::Master,
            GCEbmlSpec::IndexEntry => ElementKind::Master,
            GCEbmlSpec::IndexTargetID => ElementKind::UInt,
            GCEbmlSpec::IndexPosition => ElementKind::UInt,
            GCEbmlSpec::IndexTarget => ElementKind::Text,
            GCEbmlSpec::IndexTargetCategory => ElementKind::Text,
            GCEbmlSpec::IndexTargetRegion => ElementKind::Text,
            GCEbmlSpec::IndexTargetUID => ElementKind::UInt,
            GCEbmlSpec::Title => ElementKind::Text,
            GCEbmlSpec::Developer => ElementKind::Text,
            GCEbmlSpec::Genre => ElementKind::Text,
            GCEbmlSpec::MinPlayers => ElementKind::UInt,
            GCEbmlSpec::MaxPlayers => ElementKind::UInt,
            GCEbmlSpec::GameSystem => ElementKind::Text,
            GCEbmlSpec::Description => ElementKind::Text,
            GCEbmlSpec::Rating => ElementKind::Master,
            GCEbmlSpec::RegionInfo => ElementKind::Master,
            GCEbmlSpec::GameData => ElementKind::Master,
            GCEbmlSpec::RatingValue => ElementKind::Text,
            GCEbmlSpec::RatingSource => ElementKind::Text,
            GCEbmlSpec::Region => ElementKind::Text,
            GCEbmlSpec::Language => ElementKind::Text,
            GCEbmlSpec::ReleaseDate => ElementKind::Binary,
            GCEbmlSpec::Publisher => ElementKind::Text,
            GCEbmlSpec::AgeRating => ElementKind::Text,
            GCEbmlSpec::GameDataEntry => ElementKind::Master,
            GCEbmlSpec::EntryUID => ElementKind::UInt,
            GCEbmlSpec::DataFormat => ElementKind::Text,
            GCEbmlSpec::RawData => ElementKind::Master,
            GCEbmlSpec::ArchiveData => ElementKind::Master,
            GCEbmlSpec::ChdData => ElementKind::Master,
            GCEbmlSpec::BinCueData => ElementKind::Master,
            GCEbmlSpec::SSMCData => ElementKind::Master,
            GCEbmlSpec::FileProperties => ElementKind::Master,
            GCEbmlSpec::ROMData => ElementKind::Binary,
            GCEbmlSpec::ROMFileName => ElementKind::Text,
            GCEbmlSpec::ROMFileSize => ElementKind::UInt,
            GCEbmlSpec::CRC32 => ElementKind::Binary,
            GCEbmlSpec::MD5 => ElementKind::Binary,
            GCEbmlSpec::SHA1 => ElementKind::Binary,
            GCEbmlSpec::SHA256 => ElementKind::Binary,
            GCEbmlSpec::SHA512 => ElementKind::Binary,
            GCEbmlSpec::SSMCIndex => ElementKind::UInt,
            GCEbmlSpec::CompressionAlgorithm => ElementKind::Text,
            GCEbmlSpec::ArchivedFileCount => ElementKind::UInt,
            GCEbmlSpec::ArchiveFileMetadata => ElementKind::Master,
            GCEbmlSpec::ArchiveBinary => ElementKind::Binary,
            GCEbmlSpec::CHDCount => ElementKind::UInt,
            GCEbmlSpec::CHDEntry => ElementKind::Master,
            GCEbmlSpec::DiscNum => ElementKind::UInt,
            GCEbmlSpec::CHDBinary => ElementKind::Binary,
            GCEbmlSpec::BinCueCount => ElementKind::UInt,
            GCEbmlSpec::BinCueEntry => ElementKind::Master,
            GCEbmlSpec::CueSheet => ElementKind::Text,
            GCEbmlSpec::BinBinary => ElementKind::Binary,
            GCEbmlSpec::SSMCEntry => ElementKind::Master,
            GCEbmlSpec::SSMCBinary => ElementKind::Binary,
            GCEbmlSpec::ManualEntry => ElementKind::Master,
            GCEbmlSpec::PageCount => ElementKind::UInt,
            GCEbmlSpec::Revision => ElementKind::Text,
            GCEbmlSpec::ManualFormat => ElementKind::Text,
            GCEbmlSpec::ManualData => ElementKind::Binary,
            GCEbmlSpec::RomHackEntry => ElementKind::Master,
        }
    }

    /// The element's name, as the schema spells it.
    pub open spec fn spec_name(self) -> Seq<char> {
        match self {
            GCEbmlSpec::EBML => "EBML"@,
            GCEbmlSpec::EBMLVersion => "EBMLVersion"@,
            GCEbmlSpec::DocType => "DocType"@,
            GCEbmlSpec::DocTypeVersion => "DocTypeVersion"@,
            GCEbmlSpec::DocTypeReadVersion => "DocTypeReadVersion"@,
            GCEbmlSpec::GameCase => "GameCase"@,
            GCEbmlSpec::Index => "Index"@,
            GCEbmlSpec::Game => "Game"@,
            GCEbmlSpec::Manuals => "Manuals"@,
            GCEbmlSpec::RomHacks => "RomHacks"@,
            GCEbmlSpec::Media => "Media"@,
            GCEbmlSpec::IndexEntry => "IndexEntry"@,
            GCEbmlSpec::IndexTargetID => "IndexTargetID"@,
            GCEbmlSpec::IndexPosition => "IndexPosition"@,
            GCEbmlSpec::IndexTarget => "IndexTarget"@,
            GCEbmlSpec::IndexTargetCategory => "IndexTargetCategory"@,
            GCEbmlSpec::IndexTargetRegion => "IndexTargetRegion"@,
            GCEbmlSpec::IndexTargetUID => "IndexTargetUID"@,
            GCEbmlSpec::Title => "Title"@,
            GCEbmlSpec::Developer => "Developer"@,
            GCEbmlSpec::Genre => "Genre"@,
            GCEbmlSpec::MinPlayers => "MinPlayers"@,
            GCEbmlSpec::MaxPlayers => "MaxPlayers"@,
            GCEbmlSpec::GameSystem => "GameSystem"@,
            GCEbmlSpec::Description => "Description"@,
            GCEbmlSpec::Rating => "Rating"@,
            GCEbmlSpec::RegionInfo => "RegionInfo"@,
            GCEbmlSpec::GameData => "GameData"@,
            GCEbmlSpec::RatingValue => "RatingValue"@,
            GCEbmlSpec::RatingSource => "RatingSource"@,
            GCEbmlSpec::Region => "Region"@,
            GCEbmlSpec::Language => "Language"@,
            GCEbmlSpec::ReleaseDate => "ReleaseDate"@,
            GCEbmlSpec::Publisher => "Publisher"@,
            GCEbmlSpec::AgeRating => "AgeRating"@,
            GCEbmlSpec::GameDataEntry => "GameDataEntry"@,
            GCEbmlSpec::EntryUID => "EntryUID"@,
            GCEbmlSpec::DataFormat => "DataFormat"@,
            GCEbmlSpec::RawData => "RawData"@,
            GCEbmlSpec::ArchiveData => "ArchiveData"@,
            GCEbmlSpec::ChdData => "ChdData"@,
            GCEbmlSpec::BinCueData => "BinCueData"@,
            GCEbmlSpec::SSMCData => "SSMCData"@,
            GCEbmlSpec::FileProperties => "FileProperties"@,
            GCEbmlSpec::ROMData => "ROMData"@,
            GCEbmlSpec::ROMFileName => "ROMFileName"@,
            GCEbmlSpec::ROMFileSize => "ROMFileSize"@,
            GCEbmlSpec::CRC32 => "CRC32"@,
            GCEbmlSpec::MD5 => "MD5"@,
            GCEbmlSpec::SHA1 => "SHA1"@,
            GCEbmlSpec::SHA256 => "SHA256"@,
            GCEbmlSpec::SHA512 => "SHA512"@,
            GCEbmlSpec::SSMCIndex => "SSMCIndex"@,
            GCEbmlSpec::CompressionAlgorithm => "CompressionAlgorithm"@,
            GCEbmlSpec::ArchivedFileCount => "ArchivedFileCount"@,
            GCEbmlSpec::ArchiveFileMetadata => "ArchiveFileMetadata"@,
            GCEbmlSpec::ArchiveBinary => "ArchiveBinary"@,
            GCEbmlSpec::CHDCount => "CHDCount"@,
            GCEbmlSpec::CHDEntry => "CHDEntry"@,
            GCEbmlSpec::DiscNum => "DiscNum"@,
            GCEbmlSpec::CHDBinary => "CHDBinary"@,
            GCEbmlSpec::BinCueCount => "BinCueCount"@,
            GCEbmlSpec::BinCueEntry => "BinCueEntry"@,
            GCEbmlSpec::CueSheet => "CueSheet"@,
            GCEbmlSpec::BinBinary => "BinBinary"@,
            GCEbmlSpec::SSMCEntry => "SSMCEntry"@,
            GCEbmlSpec::SSMCBinary => "SSMCBinary"@,
            GCEbmlSpec::ManualEntry => "ManualEntry"@,
            GCEbmlSpec::PageCount => "PageCount"@,
            GCEbmlSpec::Revision => "Revision"@,
            GCEbmlSpec::ManualFormat => "ManualFormat"@,
            GCEbmlSpec::ManualData => "ManualData"@,
            GCEbmlSpec::RomHackEntry => "RomHackEntry"@,
        }
    }

    pub fn name(&self) -> (r: &'static str)
        ensures
            r@ == self.spec_name(),
    {
        match self {
            GCEbmlSpec::EBML => "EBML",
            GCEbmlSpec::EBMLVersion => "EBMLVersion",
            GCEbmlSpec::DocType => "DocType",
            GCEbmlSpec::DocTypeVersion => "DocTypeVersion",
            GCEbmlSpec::DocTypeReadVersion => "DocTypeReadVersion",
            GCEbmlSpec::GameCase => "GameCase",
            GCEbmlSpec::Index => "Index",
            GCEbmlSpec::Game => "Game",
            GCEbmlSpec::Manuals => "Manuals",
            GCEbmlSpec::RomHacks => "RomHacks",
            GCEbmlSpec::Media => "Media",
            GCEbmlSpec::IndexEntry => "IndexEntry",
            GCEbmlSpec::IndexTargetID => "IndexTargetID",
            GCEbmlSpec::IndexPosition => "IndexPosition",
            GCEbmlSpec::IndexTarget => "IndexTarget",
            GCEbmlSpec::IndexTargetCategory => "IndexTargetCategory",
            GCEbmlSpec::IndexTargetRegion => "IndexTargetRegion",
            GCEbmlSpec::IndexTargetUID => "IndexTargetUID",
            GCEbmlSpec::Title => "Title",
            GCEbmlSpec::Developer => "Developer",
            GCEbmlSpec::Genre => "Genre",
            GCEbmlSpec::MinPlayers => "MinPlayers",
            GCEbmlSpec::MaxPlayers => "MaxPlayers",
            GCEbmlSpec::GameSystem => "GameSystem",
            GCEbmlSpec::Description => "Description",
            GCEbmlSpec::Rating => "Rating",
            GCEbmlSpec::RegionInfo => "RegionInfo",
            GCEbmlSpec::GameData => "GameData",
            GCEbmlSpec::RatingValue => "RatingValue",
            GCEbmlSpec::RatingSource => "RatingSource",
            GCEbmlSpec::Region => "Region",
            GCEbmlSpec::Language => "Language",
            GCEbmlSpec::ReleaseDate => "ReleaseDate",
            GCEbmlSpec::Publisher => "Publisher",
            GCEbmlSpec::AgeRating => "AgeRating",
            GCEbmlSpec::GameDataEntry => "GameDataEntry",
            GCEbmlSpec::EntryUID => "EntryUID",
            GCEbmlSpec::DataFormat => "DataFormat",
            GCEbmlSpec::RawData => "RawData",
            GCEbmlSpec::ArchiveData => "ArchiveData",
            GCEbmlSpec::ChdData => "ChdData",
            GCEbmlSpec::BinCueData => "BinCueData",
            GCEbmlSpec::SSMCData => "SSMCData",
            GCEbmlSpec::FileProperties => "FileProperties",
            GCEbmlSpec::ROMData => "ROMData",
            GCEbmlSpec::ROMFileName => "ROMFileName",
            GCEbmlSpec::ROMFileSize => "ROMFileSize",
            GCEbmlSpec::CRC32 => "CRC32",
            GCEbmlSpec::MD5 => "MD5",
            GCEbmlSpec::SHA1 => "SHA1",
            GCEbmlSpec::SHA256 => "SHA256",
            GCEbmlSpec::SHA512 => "SHA512",
            GCEbmlSpec::SSMCIndex => "SSMCIndex",
            GCEbmlSpec::CompressionAlgorithm => "CompressionAlgorithm",
            GCEbmlSpec::ArchivedFileCount => "ArchivedFileCount",
            GCEbmlSpec::ArchiveFileMetadata => "ArchiveFileMetadata",
            GCEbmlSpec::ArchiveBinary => "ArchiveBinary",
            GCEbmlSpec::CHDCount => "CHDCount",
            GCEbmlSpec::CHDEntry => "CHDEntry",
            GCEbmlSpec::DiscNum => "DiscNum",
            GCEbmlSpec::CHDBinary => "CHDBinary",
            GCEbmlSpec::BinCueCount => "BinCueCount",
            GCEbmlSpec::BinCueEntry => "BinCueEntry",
            GCEbmlSpec::CueSheet => "CueSheet",
            GCEbmlSpec::BinBinary => "BinBinary",
            GCEbmlSpec::SSMCEntry => "SSMCEntry",
            GCEbmlSpec::SSMCBinary => "SSMCBinary",
            GCEbmlSpec::ManualEntry => "ManualEntry",
            GCEbmlSpec::PageCount => "PageCount",
            GCEbmlSpec::Revision => "Revision",
            GCEbmlSpec::ManualFormat => "ManualFormat",
            GCEbmlSpec::ManualData => "ManualData",
            GCEbmlSpec::RomHackEntry => "RomHackEntry",
        }
    }

    /// Registry lookup: the element registered under an identifier.
    pub open spec fn spec_lookup(id: u32) -> Option<GCEbmlSpec> {
        if id == ID_EBML {
            Some(GCEbmlSpec::EBML)
        } else if id == ID_EBML_VERSION {
            Some(GCEbmlSpec::EBMLVersion)
        } else if id == ID_DOC_TYPE {
            Some(GCEbmlSpec::DocType)
        } else if id == ID_DOC_TYPE_VERSION {
            Some(GCEbmlSpec::DocTypeVersion)
        } else if id == ID_DOC_TYPE_READ_VERSION {
            Some(GCEbmlSpec::DocTypeReadVersion)
        } else if id == ID_GAME_CASE {
            Some(GCEbmlSpec::GameCase)
        } else if id == ID_INDEX {
            Some(GCEbmlSpec::Index)
        } else if id == ID_GAME {
            Some(GCEbmlSpec::Game)
        } else if id == ID_MANUALS {
            Some(GCEbmlSpec::Manuals)
        } else if id == ID_ROM_HACKS {
            Some(GCEbmlSpec::RomHacks)
        } else if id == ID_MEDIA {
            Some(GCEbmlSpec::Media)
        } else if id == ID_INDEX_ENTRY {
            Some(GCEbmlSpec::IndexEntry)
        } else if id == ID_INDEX_TARGET_ID {
            Some(GCEbmlSpec::IndexTargetID)
        } else if id == ID_INDEX_POSITION {
            Some(GCEbmlSpec::IndexPosition)
        } else if id == ID_INDEX_TARGET {
            Some(GCEbmlSpec::IndexTarget)
        } else if id == ID_INDEX_TARGET_CATEGORY {
            Some(GCEbmlSpec::IndexTargetCategory)
        } else if id == ID_INDEX_TARGET_REGION {
            Some(GCEbmlSpec::IndexTargetRegion)
        } else if id == ID_INDEX_TARGET_UID {
            Some(GCEbmlSpec::IndexTargetUID)
        } else if id == ID_TITLE {
            Some(GCEbmlSpec::Title)
        } else if id == ID_DEVELOPER {
            Some(GCEbmlSpec::Developer)
        } else if id == ID_GENRE {
            Some(GCEbmlSpec::Genre)
        } else if id == ID_MIN_PLAYERS {
            Some(GCEbmlSpec::MinPlayers)
        } else if id == ID_MAX_PLAYERS {
            Some(GCEbmlSpec::MaxPlayers)
        } else if id == ID_GAME_SYSTEM {
            Some(GCEbmlSpec::GameSystem)
        } else if id == ID_DESCRIPTION {
            Some(GCEbmlSpec::Description)
        } else if id == ID_RATING {
            Some(GCEbmlSpec::Rating)
        } else if id == ID_REGION_INFO {
            Some(GCEbmlSpec::RegionInfo)
        } else if id == ID_GAME_DATA {
            Some(GCEbmlSpec::GameData)
        } else if id == ID_RATING_VALUE {
            Some(GCEbmlSpec::RatingValue)
        } else if id == ID_RATING_SOURCE {
            Some(GCEbmlSpec::RatingSource)
        } else if id == ID_REGION {
            Some(GCEbmlSpec::Region)
        } else if id == ID_LANGUAGE {
            Some(GCEbmlSpec::Language)
        } else if id == ID_RELEASE_DATE {
            Some(GCEbmlSpec::ReleaseDate)
        } else if id == ID_PUBLISHER {
            Some(GCEbmlSpec::Publisher)
        } else if id == ID_AGE_RATING {
            Some(GCEbmlSpec::AgeRating)
        } else if id == ID_GAME_DATA_ENTRY {
            Some(GCEbmlSpec::GameDataEntry)
        } else if id == ID_ENTRY_UID {
            Some(GCEbmlSpec::EntryUID)
        } else if id == ID_DATA_FORMAT {
            Some(GCEbmlSpec::DataFormat)
        } else if id == ID_RAW_DATA {
            Some(GCEbmlSpec::RawData)
        } else if id == ID_ARCHIVE_DATA {
            Some(GCEbmlSpec::ArchiveData)
        } else if id == ID_CHD_DATA {
            Some(GCEbmlSpec::ChdData)
        } else if id == ID_BIN_CUE_DATA {
            Some(GCEbmlSpec::BinCueData)
        } else if id == ID_SSMC_DATA {
            Some(GCEbmlSpec::SSMCData)
        } else if id == ID_FILE_PROPERTIES {
            Some(GCEbmlSpec::FileProperties)
        } else if id == ID_ROM_DATA {
            Some(GCEbmlSpec::ROMData)
        } else if id == ID_ROM_FILE_NAME {
            Some(GCEbmlSpec::ROMFileName)
        } else if id == ID_ROM_FILE_SIZE {
            Some(GCEbmlSpec::ROMFileSize)
        } else if id == ID_CRC32 {
            Some(GCEbmlSpec::CRC32)
        } else if id == ID_MD5 {
            Some(GCEbmlSpec::MD5)
        } else if id == ID_SHA1 {
            Some(GCEbmlSpec::SHA1)
        } else if id == ID_SHA256 {
            Some(GCEbmlSpec::SHA256)
        } else if id == ID_SHA512 {
            Some(GCEbmlSpec::SHA512)
        } else if id == ID_SSMC_INDEX {
            Some(GCEbmlSpec::SSMCIndex)
        } else if id == ID_COMPRESSION_ALGORITHM {
            Some(GCEbmlSpec::CompressionAlgorithm)
        } else if id == ID_ARCHIVED_FILE_COUNT {
            Some(GCEbmlSpec::ArchivedFileCount)
        } else if id == ID_ARCHIVE_FILE_METADATA {
            Some(GCEbmlSpec::ArchiveFileMetadata)
        } else if id == ID_ARCHIVE_BINARY {
            Some(GCEbmlSpec::ArchiveBinary)
        } else if id == ID_CHD_COUNT {
            Some(GCEbmlSpec::CHDCount)
        } else if id == ID_CHD_ENTRY {
            Some(GCEbmlSpec::CHDEntry)
        } else if id == ID_DISC_NUM {
            Some(GCEbmlSpec::DiscNum)
        } else if id == ID_CHD_BINARY {
            Some(GCEbmlSpec::CHDBinary)
        } else if id == ID_BIN_CUE_COUNT {
            Some(GCEbmlSpec::BinCueCount)
        } else if id == ID_BIN_CUE_ENTRY {
            Some(GCEbmlSpec::BinCueEntry)
        } else if id == ID_CUE_SHEET {
            Some(GCEbmlSpec::CueSheet)
        } else if id == ID_BIN_BINARY {
            Some(GCEbmlSpec::BinBinary)
        } else if id == ID_SSMC_ENTRY {
            Some(GCEbmlSpec::SSMCEntry)
        } else if id == ID_SSMC_BINARY {
            Some(GCEbmlSpec::SSMCBinary)
        } else if id == ID_MANUAL_ENTRY {
            Some(GCEbmlSpec::ManualEntry)
        } else if id == ID_PAGE_COUNT {
            Some(GCEbmlSpec::PageCount)
        } else if id == ID_REVISION {
            Some(GCEbmlSpec::Revision)
        } else if id == ID_MANUAL_FORMAT {
            Some(GCEbmlSpec::ManualFormat)
        } else if id == ID_MANUAL_DATA {
            Some(GCEbmlSpec::ManualData)
        } else if id == ID_ROM_HACK_ENTRY {
            Some(GCEbmlSpec::RomHackEntry)
        } else {
            None
        }
    }

    pub fn lookup(id: u32) -> (r: Option<GCEbmlSpec>)
        ensures
            r == GCEbmlSpec::spec_lookup(id),
    {
        if id == ID_EBML {
            Some(GCEbmlSpec::EBML)
        } else if id == ID_EBML_VERSION {
            Some(GCEbmlSpec::EBMLVersion)
        } else if id == ID_DOC_TYPE {
            Some(GCEbmlSpec::DocType)
        } else if id == ID_DOC_TYPE_VERSION {
            Some(GCEbmlSpec::DocTypeVersion)
        } else if id == ID_DOC_TYPE_READ_VERSION {
            Some(GCEbmlSpec::DocTypeReadVersion)
        } else if id == ID_GAME_CASE {
            Some(GCEbmlSpec::GameCase)
        } else if id == ID_INDEX {
            Some(GCEbmlSpec::Index)
        } else if id == ID_GAME {
            Some(GCEbmlSpec::Game)
        } else if id == ID_MANUALS {
            Some(GCEbmlSpec::Manuals)
        } else if id == ID_ROM_HACKS {
            Some(GCEbmlSpec::RomHacks)
        } else if id == ID_MEDIA {
            Some(GCEbmlSpec::Media)
        } else if id == ID_INDEX_ENTRY {
            Some(GCEbmlSpec::IndexEntry)
        } else if id == ID_INDEX_TARGET_ID {
            Some(GCEbmlSpec::IndexTargetID)
        } else if id == ID_INDEX_POSITION {
            Some(GCEbmlSpec::IndexPosition)
        } else if id == ID_INDEX_TARGET {
            Some(GCEbmlSpec::IndexTarget)
        } else if id == ID_INDEX_TARGET_CATEGORY {
            Some(GCEbmlSpec::IndexTargetCategory)
        } else if id == ID_INDEX_TARGET_REGION {
            Some(GCEbmlSpec::IndexTargetRegion)
        } else if id == ID_INDEX_TARGET_UID {
            Some(GCEbmlSpec::IndexTargetUID)
        } else if id == ID_TITLE {
            Some(GCEbmlSpec::Title)
        } else if id == ID_DEVELOPER {
            Some(GCEbmlSpec::Developer)
        } else if id == ID_GENRE {
            Some(GCEbmlSpec::Genre)
        } else if id == ID_MIN_PLAYERS {
            Some(GCEbmlSpec::MinPlayers)
        } else if id == ID_MAX_PLAYERS {
            Some(GCEbmlSpec::MaxPlayers)
        } else if id == ID_GAME_SYSTEM {
            Some(GCEbmlSpec::GameSystem)
        } else if id == ID_DESCRIPTION {
            Some(GCEbmlSpec::Description)
        } else if id == ID_RATING {
            Some(GCEbmlSpec::Rating)
        } else if id == ID_REGION_INFO {
            Some(GCEbmlSpec::RegionInfo)
        } else if id == ID_GAME_DATA {
            Some(GCEbmlSpec::GameData)
        } else if id == ID_RATING_VALUE {
            Some(GCEbmlSpec::RatingValue)
        } else if id == ID_RATING_SOURCE {
            Some(GCEbmlSpec::RatingSource)
        } else if id == ID_REGION {
            Some(GCEbmlSpec::Region)
        } else if id == ID_LANGUAGE {
            Some(GCEbmlSpec::Language)
        } else if id == ID_RELEASE_DATE {
            Some(GCEbmlSpec::ReleaseDate)
        } else if id == ID_PUBLISHER {
            Some(GCEbmlSpec::Publisher)
        } else if id == ID_AGE_RATING {
            Some(GCEbmlSpec::AgeRating)
        } else if id == ID_GAME_DATA_ENTRY {
            Some(GCEbmlSpec::GameDataEntry)
        } else if id == ID_ENTRY_UID {
            Some(GCEbmlSpec::EntryUID)
        } else if id == ID_DATA_FORMAT {
            Some(GCEbmlSpec::DataFormat)
        } else if id == ID_RAW_DATA {
            Some(GCEbmlSpec::RawData)
        } else if id == ID_ARCHIVE_DATA {
            Some(GCEbmlSpec::ArchiveData)
        } else if id == ID_CHD_DATA {
            Some(GCEbmlSpec::ChdData)
        } else if id == ID_BIN_CUE_DATA {
            Some(GCEbmlSpec::BinCueData)
        } else if id == ID_SSMC_DATA {
            Some(GCEbmlSpec::SSMCData)
        } else if id == ID_FILE_PROPERTIES {
            Some(GCEbmlSpec::FileProperties)
        } else if id == ID_ROM_DATA {
            Some(GCEbmlSpec::ROMData)
        } else if id == ID_ROM_FILE_NAME {
            Some(GCEbmlSpec::ROMFileName)
        } else if id == ID_ROM_FILE_SIZE {
            Some(GCEbmlSpec::ROMFileSize)
        } else if id == ID_CRC32 {
            Some(GCEbmlSpec::CRC32)
        } else if id == ID_MD5 {
            Some(GCEbmlSpec::MD5)
        } else if id == ID_SHA1 {
            Some(GCEbmlSpec::SHA1)
        } else if id == ID_SHA256 {
            Some(GCEbmlSpec::SHA256)
        } else if id == ID_SHA512 {
            Some(GCEbmlSpec::SHA512)
        } else if id == ID_SSMC_INDEX {
            Some(GCEbmlSpec::SSMCIndex)
        } else if id == ID_COMPRESSION_ALGORITHM {
            Some(GCEbmlSpec::CompressionAlgorithm)
        } else if id == ID_ARCHIVED_FILE_COUNT {
            Some(GCEbmlSpec::ArchivedFileCount)
        } else if id == ID_ARCHIVE_FILE_METADATA {
            Some(GCEbmlSpec::ArchiveFileMetadata)
        } else if id == ID_ARCHIVE_BINARY {
            Some(GCEbmlSpec::ArchiveBinary)
        } else if id == ID_CHD_COUNT {
            Some(GCEbmlSpec::CHDCount)
        } else if id == ID_CHD_ENTRY {
            Some(GCEbmlSpec::CHDEntry)
        } else if id == ID_DISC_NUM {
            Some(GCEbmlSpec::DiscNum)
        } else if id == ID_CHD_BINARY {
            Some(GCEbmlSpec::CHDBinary)
        } else if id == ID_BIN_CUE_COUNT {
            Some(GCEbmlSpec::BinCueCount)
        } else if id == ID_BIN_CUE_ENTRY {
            Some(GCEbmlSpec::BinCueEntry)
        } else if id == ID_CUE_SHEET {
            Some(GCEbmlSpec::CueSheet)
        } else if id == ID_BIN_BINARY {
            Some(GCEbmlSpec::BinBinary)
        } else if id == ID_SSMC_ENTRY {
            Some(GCEbmlSpec::SSMCEntry)
        } else if id == ID_SSMC_BINARY {
            Some(GCEbmlSpec::SSMCBinary)
        } else if id == ID_MANUAL_ENTRY {
            Some(GCEbmlSpec::ManualEntry)
        } else if id == ID_PAGE_COUNT {
            Some(GCEbmlSpec::PageCount)
        } else if id == ID_REVISION {
            Some(GCEbmlSpec::Revision)
        } else if id == ID_MANUAL_FORMAT {
            Some(GCEbmlSpec::ManualFormat)
        } else if id == ID_MANUAL_DATA {
            Some(GCEbmlSpec::ManualData)
        } else if id == ID_ROM_HACK_ENTRY {
            Some(GCEbmlSpec::RomHackEntry)
        } else {
            None
        }
    }
}

/// Every registered identifier is a well-formed variable-length identifier.
pub broadcast proof fn lemma_registered_id_valid(id: u32)
    requires
        spec_kind_of(id) is Some,
    ensures
        #[trigger] id_valid(id),
{
}

/// The registry is consistent: looking an element's own identifier up finds
/// that element, with the kind the table registers for it.
pub proof fn lemma_registry_consistent(e: GCEbmlSpec)
    ensures
        GCEbmlSpec::spec_lookup(e.spec_id()) == Some(e),
        spec_kind_of(e.spec_id()) == Some(e.spec_kind()),
{
}

} // verus!
