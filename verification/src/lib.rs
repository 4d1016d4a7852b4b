//! Decoding and selection logic of a status-display driver for DeepCool coolers:
//! GPU discovery on the PCI bus, AMD GPU sensor readings, and the AMD Ryzen
//! temperature register read through the WinRing0 driver.
pub mod text;
pub mod num;
pub mod wide;
pub mod pci;
pub mod dxgi;
pub mod amd;
pub mod winring0;
