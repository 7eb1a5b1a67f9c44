//! Parsing, editing and checking of AMD PSP firmware images.

use vstd::prelude::*;

pub mod address;
pub mod body;
pub mod cli;
pub mod commands;
pub mod corpus;
pub mod crypto;
pub mod directory;
pub mod entry;
pub mod error;
pub mod export;
pub mod extract;
pub mod fet;
pub mod fletcher;
pub mod id;
pub mod inventory;
pub mod laws;
pub mod list;
pub mod load;
pub mod magic;
pub mod micro;
pub mod pick;
pub mod replace;
pub mod search_keys;
pub mod sign;
pub mod source;
pub mod table;
pub mod text;
pub mod types;
pub mod verify;
pub mod walk;
pub mod wire;
pub mod writer;

pub use address::{Address, AddressMode, FlashOffset, ResolveContext, ResolveError, RomSize};
pub use body::{BodyError, Ikek, VerifyError};
pub use directory::{
    BiosDirectory, BiosEntry, ComboDirectory, ComboEntry, Directory, DirectoryHeader,
    PspDirectory, PspEntry,
};
pub use entry::{Entry, EntryClass, EntryRecord, HeaderEntry, PubkeyEntry};
pub use error::ParseError;
pub use extract::{extract_decompressed, extract_decrypted, extract_raw, ExtractError};
pub use fet::{
    detect_rom_layout, scan_fet_candidates, Fet, FetSlot, FetSlotRecord, RomLayout,
    KNOWN_FET_OFFSETS,
};
pub use fletcher::fletcher32;
pub use id::{DirectoryId, DirectoryKind, EntryType, PspGenerationId, ZenGeneration};
pub use list::{list_default, list_json, list_verbose, RomListing};
pub use magic::{directory_family, DirectoryFamily, Magic};
pub use replace::{
    replace_bios_entry_body, replace_entry_body, replace_psp_entry_body, ReplaceError,
};
pub use search_keys::{
    search_keys_with_directories, EntryRef, KeyHit, KeyHitLocation,
};
pub use sign::{sign_entry, sign_entry_with_rng, SignError};
pub use source::SourceBytes;
pub use types::readable_type;
pub use verify::{
    collect_pubkeys, verify_chain_of_trust, verify_with_directories, EntryVerification, KeyId,
    VerificationStatus,
};
pub use walk::{walk_directories, DirectoryProvenance, DirectoryRef};
pub use writer::{BlobEditor, EntryEditor, PatchError};

verus! {

/// Version of this library.
pub const VERSION: &'static str = "0.1.0";

/// Version of the parts that read and write images.
pub const CORE_VERSION: &'static str = VERSION;

} // verus!
