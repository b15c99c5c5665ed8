use vstd::prelude::*;

verus! {

/// Locates one inner file. After parsing, the descriptors are ordered by
/// offset and the last one is the directory, whose payload is the name table.
#[derive(Clone, Debug)]
pub struct DescriptorBlock {
    /// CRC-32 of the file name; kept, never checked.
    pub crc: u32,
    /// Bytes from the start of the archive to the first chunk header.
    pub offset: u32,
    /// Size of the payload once every chunk is inflated.
    pub decompressed_size: u32,
    /// The name bound from the directory; empty for the directory itself.
    pub file_name: String,
    /// The chunks, still compressed, their headers stripped.
    pub data: Vec<Vec<u8>>,
}

/// The mathematical value of a descriptor.
pub ghost struct DescriptorModel {
    pub crc: u32,
    pub offset: u32,
    pub decompressed_size: u32,
    pub file_name: Seq<char>,
    pub data: Seq<Seq<u8>>,
}

/// The views of a list of byte blocks.
pub open spec fn blocks_view(blocks: Seq<Vec<u8>>) -> Seq<Seq<u8>> {
    blocks.map_values(|b: Vec<u8>| b@)
}

/// The views of a list of descriptors.
pub open spec fn descriptors_view(blocks: Seq<DescriptorBlock>) -> Seq<DescriptorModel> {
    blocks.map_values(|d: DescriptorBlock| d@)
}

impl View for DescriptorBlock {
    type V = DescriptorModel;

    open spec fn view(&self) -> DescriptorModel {
        DescriptorModel {
            crc: self.crc,
            offset: self.offset,
            decompressed_size: self.decompressed_size,
            file_name: self.file_name@,
            data: blocks_view(self.data@),
        }
    }
}

} // verus!
