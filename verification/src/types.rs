//! Names of entry types.

use vstd::prelude::*;

use crate::id::EntryType;
use crate::text::{group_text, prefixed_hex, push_hex};

verus! {

/// The name of an entry type in a PSP directory.
pub open spec fn psp_type_name(t: u8) -> Option<&'static str> {
    match t {
        0x00 => Some("AMD_PUBLIC_KEY"),
        0x01 => Some("PSP_FW_BOOT_LOADER"),
        0x02 => Some("PSP_FW_TRUSTED_OS"),
        0x03 => Some("PSP_FW_RECOVERY_BOOT_LOADER"),
        0x04 => Some("PSP_NV_DATA"),
        0x05 => Some("BIOS_PUBLIC_KEY"),
        0x06 => Some("BIOS_RTM_FIRMWARE"),
        0x07 => Some("BIOS_RTM_SIGNATURE"),
        0x08 => Some("SMU_OFFCHIP_FW"),
        0x09 => Some("SEC_DBG_PUBLIC_KEY"),
        0x0A => Some("OEM_PSP_FW_PUBLIC_KEY"),
        0x0B => Some("SOFT_FUSE_CHAIN_01"),
        0x0C => Some("PSP_BOOT_TIME_TRUSTLETS"),
        0x0D => Some("PSP_BOOT_TIME_TRUSTLETS_KEY"),
        0x10 => Some("PSP_AGESA_RESUME_FW"),
        0x12 => Some("SMU_OFF_CHIP_FW_2"),
        0x13 => Some("DEBUG_UNLOCK"),
        0x15 => Some("TEE_IP_KEY_MGR_DRIVER"),
        0x1A => Some("PSP_S3_NV_DATA_OR_SEV_DRIVER"),
        0x1B => Some("TEE_BOOT_DRIVER"),
        0x1C => Some("TEE_SOC_DRIVER"),
        0x1D => Some("TEE_FBG_DRIVER"),
        0x1F => Some("TEE_INTERFACE_DRIVER"),
        0x20 => Some("HARDWARE_IP_CONFIG"),
        0x21 => Some("WRAPPED_IKEK"),
        0x22 => Some("TOKEN_UNLOCK"),
        0x23 => Some("PSP_DIAG_BL"),
        0x24 => Some("SEC_GASKET"),
        0x25 => Some("MP2_FW"),
        0x26 => Some("MP2_FW_2"),
        0x27 => Some("USER_MODE_UNIT_TEST"),
        0x28 => Some("DRIVER_ENTRIES"),
        0x29 => Some("KVM_IMAGE"),
        0x2A => Some("MP5_FW"),
        0x2B => Some("EMBEDDED_FW_STRUCTURE"),
        0x2C => Some("TEE_WRITE_ONCE_NVRAM"),
        0x2D => Some("S0I3_DRIVER"),
        0x2E => Some("PREMIUM_CHIPSET_MP0_DXIO_FW"),
        0x2F => Some("PREMIUM_CHIPSET_MP1_FW"),
        0x30 => Some("ABL0"),
        0x31 => Some("ABL1"),
        0x32 => Some("ABL2"),
        0x33 => Some("ABL3"),
        0x34 => Some("ABL4"),
        0x35 => Some("ABL5"),
        0x36 => Some("ABL6"),
        0x37 => Some("ABL7"),
        0x38 => Some("SEV_DATA"),
        0x39 => Some("SEV_CODE"),
        0x3A => Some("FW_PSP_WHITELIST"),
        0x3C => Some("VBIOS_PRELOAD"),
        0x3D => Some("WLAN_UMAC"),
        0x3E => Some("WLAN_IMAC"),
        0x3F => Some("WLAN_BT"),
        0x40 => Some("PSP_FW_L2_PTR"),
        0x41 => Some("FW_IMC"),
        0x42 => Some("FW_GEC_OR_DXIO_PHY_SRAM_FW"),
        0x43 => Some("DXIO_PHY_SRAM_FW_PUBKEY"),
        0x44 => Some("FW_XHCI"),
        0x45 => Some("TOS_SECURITY_POLICY"),
        0x46 => Some("ANOTHER_FET"),
        0x47 => Some("DRTM_TA"),
        0x48 => Some("PSP_FW_L2A_PTR"),
        0x49 => Some("BIOS_L2AB_PTR"),
        0x4A => Some("PSP_FW_L2B_PTR"),
        0x4B => Some("RESERVED"),
        0x4C => Some("PREMIUM_CHIPSET_SEC_POLICY"),
        0x4D => Some("PREMIUM_CHIPSET_DEBUG_UNLOCK"),
        0x4E => Some("PMU_PUBKEY"),
        0x4F => Some("UMC_FW"),
        0x50 => Some("BL_PUBLIC_KEY"),
        0x51 => Some("TOS_PUBLIC_KEY"),
        0x52 => Some("OEM_PSP_BL_USER_APP"),
        0x53 => Some("OEM_PSP_BL_USER_APP_KEY"),
        0x54 => Some("PSP_NVRAM"),
        0x55 => Some("BL_ROLLBACK_SPL"),
        0x56 => Some("TOS_ROLLBACK_SPL"),
        0x57 => Some("PSP_BL_CVIP_TABLE"),
        0x58 => Some("DMCU_ERAM"),
        0x59 => Some("DMCU_ISR"),
        0x5A => Some("MSMU_BINARY_0"),
        0x5B => Some("MSMU_BINARY_1"),
        0x5C => Some("SPI_ROM_CONFIG"),
        0x5D => Some("MPIO_FW"),
        0x5E => Some("DF_TOPOLOGY"),
        0x5F => Some("FW_PSP_SMUSCS_OR_TPMLITE"),
        0x64 => Some("TEE_RAS_DRIVER"),
        0x65 => Some("TEE_RAS_TRUSTED_APP"),
        0x67 => Some("TEE_FHP_DRIVER_FW"),
        0x68 => Some("TEE_SPDM_DRIVER_FW"),
        0x69 => Some("TEE_DPE_DRIVER_FW"),
        0x6A => Some("TEE_PRE_MEM_DRIVER_FW"),
        0x6B => Some("TEE_MP_RAS_DRIVER_FW"),
        0x6C => Some("TEE_POST_MEM_DRIVER_FW"),
        0x70 => Some("BIOS_L2_PTR"),
        0x71 => Some("PSP_DMCUB_CODE"),
        0x72 => Some("PSP_DMCUB_DATA"),
        0x73 => Some("PSP_FW_BOOT_LOADER"),
        0x74 => Some("PSP_PLATFORM_DRIVER"),
        0x75 => Some("FW_SOFT_FUSING_BINARY"),
        0x76 => Some("REGISTER_INIT_BIN"),
        0x80 => Some("OEM_SYS_TA"),
        0x81 => Some("OEM_SYS_TA_SIGNING_KEY"),
        0x82 => Some("IKEK_OEM"),
        0x84 => Some("TKEK_OEM"),
        0x85 => Some("AMF_FW1"),
        0x86 => Some("AMF_FW2"),
        0x87 => Some("MFD_MPM_FACTORY"),
        0x88 => Some("MFD_MPM_WLAN_FW"),
        0x89 => Some("MPM_DRIVER"),
        0x8A => Some("USB4_PHY_FW"),
        0x8B => Some("FIPS_CERTIFICATION_MODULE"),
        0x8C => Some("MPDMA_TF_FW"),
        0x8D => Some("IKEK_TA"),
        0x8E => Some("SEC_FW_DATA_RECORDER"),
        0x8F => Some("OFFCHIP_USB4_FW"),
        0x90 => Some("CCX_CORE_INIT_AND_PM"),
        0x91 => Some("GMI3_PHY_FW"),
        0x92 => Some("MPDMA_MPDACC_TIERED_MEMORY_PAGE_MIGRATION_FW"),
        0x93 => Some("PROM21_FW"),
        0x94 => Some("LSDMA_FW"),
        0x95 => Some("C20_PHY_FW"),
        0x96 => Some("NPU_FW"),
        0x97 => Some("AMD_SFFS_PUBKEY"),
        0x98 => Some("CPU_FEAT_CONFIG_TBL"),
        0x99 => Some("PMF_BINARY"),
        0x9A => Some("REDUCED_MSMU_SIZE"),
        0x9B => Some("GFX_IMU_LX7_CODE"),
        0x9C => Some("GFX_IMU_LX7_DATA"),
        0x9D => Some("FW_ROM_OR_FIPS_SRAM"),
        0x9E => Some("SFDR_DATA"),
        0x9F => Some("REG_ACCESS_WHITELIST"),
        0xA0 => Some("CPU_S3_IMAGE"),
        0xA2 => Some("UZSC_RESET_WORKAROUND"),
        0xA3 => Some("USB_NATIVE_DP"),
        0xA4 => Some("USB_TYPEC_DP"),
        0xA5 => Some("USB_SS_FW"),
        0xA6 => Some("USB4"),
        0xA7 => Some("OFFCHIP_XHCI_SATA_PCIE"),
        0xAA => Some("ASP_LIBSEC"),
        0xAB => Some("ART_FMC_IMG"),
        0xAC => Some("ART_RUNTIME_FW"),
        0xAD => Some("ART_KEY_DATABASE"),
        0xAE => Some("SEC_ASP_LIBROM_OVERLAY_FW"),
        0xB0 => Some("MPM_CONTEXT"),
        _ => None,
    }
}

/// The name that an entry type has in a BIOS directory only.
pub open spec fn bios_type_name(t: u8) -> Option<&'static str> {
    match t {
        0x60 => Some("APCB"),
        0x61 => Some("APOB"),
        0x62 => Some("BIOS"),
        0x63 => Some("APOB_NV_COPY"),
        0x64 => Some("PMU_CODE"),
        0x65 => Some("PMU_DATA"),
        0x66 => Some("MICROCODE_PATCH"),
        0x67 => Some("CORE_MCE_DATA"),
        0x68 => Some("APCB_COPY"),
        0x69 => Some("EARLY_VGA_IMAGE"),
        0x6B => Some("COREBOOT_VBOOT_CONTEXT"),
        0x6D => Some("ROM_ARMOR_BIOS_NVSTORE"),
        0x6E => Some("DEBUG_UNIT"),
        0x6F => Some("OEM_LOGO_IMAGE"),
        0x77 => Some("DDRPHY_PCU_FW"),
        0x7B => Some("MPRAS_TRUSTRED_APP_IMG"),
        0x7C => Some("OC_SWEET_SPOT_PROFILE"),
        _ => None,
    }
}

/// A type as text: its name and its number, one of the two where the other is
/// missing. The types `0x61` and `0x62` of BIOS directories show their name
/// alone.
pub open spec fn type_text(t: u8, is_bios_directory: bool) -> Seq<char> {
    let number = prefixed_hex(t as nat);
    if is_bios_directory && (t == 0x61 || t == 0x62) {
        bios_type_name(t)->Some_0@
    } else if is_bios_directory && bios_type_name(t) is Some {
        bios_type_name(t)->Some_0@ + ("~"@ + number)
    } else if psp_type_name(t) is Some {
        psp_type_name(t)->Some_0@ + ("~"@ + number)
    } else {
        number
    }
}

fn psp_name(t: u8) -> (r: Option<&'static str>)
    ensures
        r == psp_type_name(t),
{
    match t {
        0x00 => Some("AMD_PUBLIC_KEY"),
        0x01 => Some("PSP_FW_BOOT_LOADER"),
        0x02 => Some("PSP_FW_TRUSTED_OS"),
        0x03 => Some("PSP_FW_RECOVERY_BOOT_LOADER"),
        0x04 => Some("PSP_NV_DATA"),
        0x05 => Some("BIOS_PUBLIC_KEY"),
        0x06 => Some("BIOS_RTM_FIRMWARE"),
        0x07 => Some("BIOS_RTM_SIGNATURE"),
        0x08 => Some("SMU_OFFCHIP_FW"),
        0x09 => Some("SEC_DBG_PUBLIC_KEY"),
        0x0A => Some("OEM_PSP_FW_PUBLIC_KEY"),
        0x0B => Some("SOFT_FUSE_CHAIN_01"),
        0x0C => Some("PSP_BOOT_TIME_TRUSTLETS"),
        0x0D => Some("PSP_BOOT_TIME_TRUSTLETS_KEY"),
        0x10 => Some("PSP_AGESA_RESUME_FW"),
        0x12 => Some("SMU_OFF_CHIP_FW_2"),
        0x13 => Some("DEBUG_UNLOCK"),
        0x15 => Some("TEE_IP_KEY_MGR_DRIVER"),
        0x1A => Some("PSP_S3_NV_DATA_OR_SEV_DRIVER"),
        0x1B => Some("TEE_BOOT_DRIVER"),
        0x1C => Some("TEE_SOC_DRIVER"),
        0x1D => Some("TEE_FBG_DRIVER"),
        0x1F => Some("TEE_INTERFACE_DRIVER"),
        0x20 => Some("HARDWARE_IP_CONFIG"),
        0x21 => Some("WRAPPED_IKEK"),
        0x22 => Some("TOKEN_UNLOCK"),
        0x23 => Some("PSP_DIAG_BL"),
        0x24 => Some("SEC_GASKET"),
        0x25 => Some("MP2_FW"),
        0x26 => Some("MP2_FW_2"),
        0x27 => Some("USER_MODE_UNIT_TEST"),
        0x28 => Some("DRIVER_ENTRIES"),
        0x29 => Some("KVM_IMAGE"),
        0x2A => Some("MP5_FW"),
        0x2B => Some("EMBEDDED_FW_STRUCTURE"),
        0x2C => Some("TEE_WRITE_ONCE_NVRAM"),
        0x2D => Some("S0I3_DRIVER"),
        0x2E => Some("PREMIUM_CHIPSET_MP0_DXIO_FW"),
        0x2F => Some("PREMIUM_CHIPSET_MP1_FW"),
        0x30 => Some("ABL0"),
        0x31 => Some("ABL1"),
        0x32 => Some("ABL2"),
        0x33 => Some("ABL3"),
        0x34 => Some("ABL4"),
        0x35 => Some("ABL5"),
        0x36 => Some("ABL6"),
        0x37 => Some("ABL7"),
        0x38 => Some("SEV_DATA"),
        0x39 => Some("SEV_CODE"),
        0x3A => Some("FW_PSP_WHITELIST"),
        0x3C => Some("VBIOS_PRELOAD"),
        0x3D => Some("WLAN_UMAC"),
        0x3E => Some("WLAN_IMAC"),
        0x3F => Some("WLAN_BT"),
        0x40 => Some("PSP_FW_L2_PTR"),
        0x41 => Some("FW_IMC"),
        0x42 => Some("FW_GEC_OR_DXIO_PHY_SRAM_FW"),
        0x43 => Some("DXIO_PHY_SRAM_FW_PUBKEY"),
        0x44 => Some("FW_XHCI"),
        0x45 => Some("TOS_SECURITY_POLICY"),
        0x46 => Some("ANOTHER_FET"),
        0x47 => Some("DRTM_TA"),
        0x48 => Some("PSP_FW_L2A_PTR"),
        0x49 => Some("BIOS_L2AB_PTR"),
        0x4A => Some("PSP_FW_L2B_PTR"),
        0x4B => Some("RESERVED"),
        0x4C => Some("PREMIUM_CHIPSET_SEC_POLICY"),
        0x4D => Some("PREMIUM_CHIPSET_DEBUG_UNLOCK"),
        0x4E => Some("PMU_PUBKEY"),
        0x4F => Some("UMC_FW"),
        0x50 => Some("BL_PUBLIC_KEY"),
        0x51 => Some("TOS_PUBLIC_KEY"),
        0x52 => Some("OEM_PSP_BL_USER_APP"),
        0x53 => Some("OEM_PSP_BL_USER_APP_KEY"),
        0x54 => Some("PSP_NVRAM"),
        0x55 => Some("BL_ROLLBACK_SPL"),
        0x56 => Some("TOS_ROLLBACK_SPL"),
        0x57 => Some("PSP_BL_CVIP_TABLE"),
        0x58 => Some("DMCU_ERAM"),
        0x59 => Some("DMCU_ISR"),
        0x5A => Some("MSMU_BINARY_0"),
        0x5B => Some("MSMU_BINARY_1"),
        0x5C => Some("SPI_ROM_CONFIG"),
        0x5D => Some("MPIO_FW"),
        0x5E => Some("DF_TOPOLOGY"),
        0x5F => Some("FW_PSP_SMUSCS_OR_TPMLITE"),
        0x64 => Some("TEE_RAS_DRIVER"),
        0x65 => Some("TEE_RAS_TRUSTED_APP"),
        0x67 => Some("TEE_FHP_DRIVER_FW"),
        0x68 => Some("TEE_SPDM_DRIVER_FW"),
        0x69 => Some("TEE_DPE_DRIVER_FW"),
        0x6A => Some("TEE_PRE_MEM_DRIVER_FW"),
        0x6B => Some("TEE_MP_RAS_DRIVER_FW"),
        0x6C => Some("TEE_POST_MEM_DRIVER_FW"),
        0x70 => Some("BIOS_L2_PTR"),
        0x71 => Some("PSP_DMCUB_CODE"),
        0x72 => Some("PSP_DMCUB_DATA"),
        0x73 => Some("PSP_FW_BOOT_LOADER"),
        0x74 => Some("PSP_PLATFORM_DRIVER"),
        0x75 => Some("FW_SOFT_FUSING_BINARY"),
        0x76 => Some("REGISTER_INIT_BIN"),
        0x80 => Some("OEM_SYS_TA"),
        0x81 => Some("OEM_SYS_TA_SIGNING_KEY"),
        0x82 => Some("IKEK_OEM"),
        0x84 => Some("TKEK_OEM"),
        0x85 => Some("AMF_FW1"),
        0x86 => Some("AMF_FW2"),
        0x87 => Some("MFD_MPM_FACTORY"),
        0x88 => Some("MFD_MPM_WLAN_FW"),
        0x89 => Some("MPM_DRIVER"),
        0x8A => Some("USB4_PHY_FW"),
        0x8B => Some("FIPS_CERTIFICATION_MODULE"),
        0x8C => Some("MPDMA_TF_FW"),
        0x8D => Some("IKEK_TA"),
        0x8E => Some("SEC_FW_DATA_RECORDER"),
        0x8F => Some("OFFCHIP_USB4_FW"),
        0x90 => Some("CCX_CORE_INIT_AND_PM"),
        0x91 => Some("GMI3_PHY_FW"),
        0x92 => Some("MPDMA_MPDACC_TIERED_MEMORY_PAGE_MIGRATION_FW"),
        0x93 => Some("PROM21_FW"),
        0x94 => Some("LSDMA_FW"),
        0x95 => Some("C20_PHY_FW"),
        0x96 => Some("NPU_FW"),
        0x97 => Some("AMD_SFFS_PUBKEY"),
        0x98 => Some("CPU_FEAT_CONFIG_TBL"),
        0x99 => Some("PMF_BINARY"),
        0x9A => Some("REDUCED_MSMU_SIZE"),
        0x9B => Some("GFX_IMU_LX7_CODE"),
        0x9C => Some("GFX_IMU_LX7_DATA"),
        0x9D => Some("FW_ROM_OR_FIPS_SRAM"),
        0x9E => Some("SFDR_DATA"),
        0x9F => Some("REG_ACCESS_WHITELIST"),
        0xA0 => Some("CPU_S3_IMAGE"),
        0xA2 => Some("UZSC_RESET_WORKAROUND"),
        0xA3 => Some("USB_NATIVE_DP"),
        0xA4 => Some("USB_TYPEC_DP"),
        0xA5 => Some("USB_SS_FW"),
        0xA6 => Some("USB4"),
        0xA7 => Some("OFFCHIP_XHCI_SATA_PCIE"),
        0xAA => Some("ASP_LIBSEC"),
        0xAB => Some("ART_FMC_IMG"),
        0xAC => Some("ART_RUNTIME_FW"),
        0xAD => Some("ART_KEY_DATABASE"),
        0xAE => Some("SEC_ASP_LIBROM_OVERLAY_FW"),
        0xB0 => Some("MPM_CONTEXT"),
        _ => None,
    }
}

fn bios_override_name(t: u8) -> (r: Option<&'static str>)
    ensures
        r == bios_type_name(t),
{
    match t {
        0x60 => Some("APCB"),
        0x61 => Some("APOB"),
        0x62 => Some("BIOS"),
        0x63 => Some("APOB_NV_COPY"),
        0x64 => Some("PMU_CODE"),
        0x65 => Some("PMU_DATA"),
        0x66 => Some("MICROCODE_PATCH"),
        0x67 => Some("CORE_MCE_DATA"),
        0x68 => Some("APCB_COPY"),
        0x69 => Some("EARLY_VGA_IMAGE"),
        0x6B => Some("COREBOOT_VBOOT_CONTEXT"),
        0x6D => Some("ROM_ARMOR_BIOS_NVSTORE"),
        0x6E => Some("DEBUG_UNIT"),
        0x6F => Some("OEM_LOGO_IMAGE"),
        0x77 => Some("DDRPHY_PCU_FW"),
        0x7B => Some("MPRAS_TRUSTRED_APP_IMG"),
        0x7C => Some("OC_SWEET_SPOT_PROFILE"),
        _ => None,
    }
}

fn push_named(name: &str, t: u8, out: &mut String)
    ensures
        final(out)@ == old(out)@ + (name@ + ("~"@ + prefixed_hex(t as nat))),
{
    broadcast use group_text;

    out.append(name);
    out.append("~");
    out.append("0x");
    push_hex(t as u64, out);
}

/// The text of a type in a BIOS (or else a PSP) directory.
pub fn readable_type(t: EntryType, is_bios_directory: bool) -> (r: String)
    ensures
        r@ == type_text(t.0, is_bios_directory),
{
    broadcast use group_text;

    let byte: u8 = t.get();
    let mut out = String::new();
    if is_bios_directory {
        if byte == 0x62 {
            out.append("BIOS");
            return out;
        }
        if byte == 0x61 {
            out.append("APOB");
            return out;
        }
        if let Some(name) = bios_override_name(byte) {
            push_named(name, byte, &mut out);
            return out;
        }
    }
    if let Some(name) = psp_name(byte) {
        push_named(name, byte, &mut out);
        return out;
    }
    out.append("0x");
    push_hex(byte as u64, &mut out);
    out
}

/// The text of a type ends with its number, so that no two types share one, but
/// for the two types of a BIOS directory that are known by their names alone.
pub proof fn lemma_type_text_ends_with_number(t: u8, is_bios_directory: bool)
    ensures
        is_bios_directory && t == 0x61 ==> type_text(t, is_bios_directory) == "APOB"@,
        is_bios_directory && t == 0x62 ==> type_text(t, is_bios_directory) == "BIOS"@,
        !(is_bios_directory && (t == 0x61 || t == 0x62)) ==> {
            let text = type_text(t, is_bios_directory);
            let number = "0x"@ + crate::text::hex(t as nat);
            &&& text.len() >= number.len()
            &&& text.subrange(text.len() - number.len(), text.len() as int) == number
        },
{
    let text = type_text(t, is_bios_directory);
    let number = "0x"@ + crate::text::hex(t as nat);
    if !(is_bios_directory && (t == 0x61 || t == 0x62)) {
        assert(text.subrange(text.len() - number.len(), text.len() as int) =~= number);
    }
}

} // verus!
