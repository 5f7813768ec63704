//! Boot-time memory bookkeeping for an AArch64 hypervisor: the catalog of
//! physical memory regions, the boot identity-mapping table, the stage-2
//! guest address-space builder, the VM registry and the bring-up plans that
//! each core follows.

pub mod region;
pub mod catalog;
pub mod boot_table;
pub mod gpm;
pub mod vm;
pub mod bringup;
