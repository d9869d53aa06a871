use vstd::prelude::*;

use crate::date::Date;
use crate::text::digits_val;
use crate::text::digits_value_capped;
use crate::text::field_ok;
use crate::text::find_at;
use crate::text::find_char;
use crate::text::str_eq;
use vstd::string::StrSliceExecFns;
use crate::index::ForeignKey;
use crate::index::PrimaryKey;
use crate::keys::KeyEq;
use crate::name::ArticleName;
use crate::value::Value;

verus! {

#[derive(Clone, Copy, Debug, PartialEq, Eq, Structural)]
pub enum MemoryType {
    DDR4,
    DDR5,
}

#[derive(Clone, Copy, Debug, PartialEq, Eq, Structural)]
pub enum MemorySubtype {
    UDIMM,
    RDIMM,
}

/// An extension bus: a PCIe generation in tenths (so 40 stands for 4.0),
/// with the lane count where it is known.
#[derive(Clone, Debug)]
pub enum ExtensionBus {
    PCIe(u16, Value<u16>),
}

#[derive(Clone, Copy, Debug, PartialEq, Eq, Structural)]
pub enum CoolerType {
    LiquidRecommended,
}

#[derive(Clone, Copy, Debug, PartialEq, Eq, Structural)]
pub enum Bytes {
    KB(u32),
    MB(u32),
}

#[derive(Clone, Copy, Debug, PartialEq, Eq, Structural)]
pub struct Watt(pub u16);

/// A clock rate in megahertz (so 3400 stands for 3.4 GHz).
#[derive(Clone, Copy, Debug, PartialEq, Eq, Structural)]
pub struct MHz(pub u32);

#[derive(Clone, Copy, Debug, PartialEq, Eq, Structural)]
pub struct MTperSec(pub u32);

#[derive(Clone, Copy, Debug, PartialEq, Eq, Structural, Hash)]
pub enum CPUSocket {
    AM4,
    AM5,
    SWRX8,
    SP3,
    SP5,
    SP6,
    STR5,
    FCLGA3647,
}

impl View for CPUSocket {
    type V = CPUSocket;

    open spec fn view(&self) -> CPUSocket {
        *self
    }
}

impl KeyEq for CPUSocket {
    fn key_eq(&self, other: &Self) -> (r: bool)
        ensures
            r == (self@ == other@),
    {
        *self == *other
    }
}

/// The processor's own graphics: none (a discrete card is required) or an
/// integrated Radeon.
#[derive(Clone, Copy, Debug, PartialEq, Eq, Structural)]
pub enum GraphicsModel {
    DiscreteRequired,
    Radeon,
}

#[derive(Clone, Copy, Debug, PartialEq, Eq, Structural, Hash)]
pub enum Architecture {
    Zen1,
    Zen2,
    Zen3,
    Zen4,
    Zen4c,
    Zen5,
    Infinity,
}

impl View for Architecture {
    type V = Architecture;

    open spec fn view(&self) -> Architecture {
        *self
    }
}

impl KeyEq for Architecture {
    fn key_eq(&self, other: &Self) -> (r: bool)
        ensures
            r == (self@ == other@),
    {
        *self == *other
    }
}

/// A catalog record of one processor. The name is its primary key.
#[derive(Clone, Debug)]
pub struct CPU {
    pub name: ArticleName,
    pub url: String,
    pub market_segment: Value<MarketSegment>,
    pub product_line: Value<ProductLine>,
    pub architecture: Value<Architecture>,
    pub desc: String,
    pub cores: Value<u8>,
    pub threads: Value<u8>,
    pub l1cache: Value<Bytes>,
    pub l2cache: Value<Bytes>,
    pub l3cache: Value<Bytes>,
    pub tdp: Value<Watt>,
    pub base_clock: Value<MHz>,
    pub max_boost_clock: Value<MHz>,
    pub cooler: Value<CoolerType>,
    pub launch_date: Value<Date>,
    pub cpu_socket: Value<CPUSocket>,
    pub memory_channels: Value<u8>,
    pub pci_express_version: Value<ExtensionBus>,
    pub system_memory_type: Value<MemoryType>,
    pub system_memory_subtype: Value<MemorySubtype>,
    pub system_memory_specification: Value<MTperSec>,
    pub ecc_support: Value<bool>,
    pub graphics_model: Value<GraphicsModel>,
    pub pcie_dma_security: Value<bool>,
    pub usb_dma_security: Value<bool>,
    pub amd_enhanced_virus_protection_nx_bit: Value<bool>,
}

impl PrimaryKey<ArticleName> for CPU {
    open spec fn primary_key_spec(&self) -> Seq<char> {
        self.name@
    }

    fn primary_key(&self) -> (r: &ArticleName) {
        &self.name
    }
}

#[derive(Clone, Copy, Debug, PartialEq, Eq, Structural)]
pub enum Shop {
    Digitec,
    Brack,
}

#[derive(Clone, Copy, Debug, PartialEq, Eq, Structural)]
pub enum Price {
    CHF(u16),
}

impl Price {
    /// The amount in Swiss francs, the fractional part left out.
    pub fn chf(self) -> (r: u16)
        ensures
            self == Price::CHF(r),
    {
        match self {
            Price::CHF(v) => v,
        }
    }
}

/// A marketplace listing of one processor. Its URL is its primary key; the
/// article name is a foreign key into the processor catalog.
#[derive(Clone, Debug)]
pub struct SoldAt {
    pub article_name: ArticleName,
    pub desc: String,
    pub shop: Shop,
    pub url: String,
    pub price: Price,
    pub is_tray_version: bool,
    pub is_used: bool,
    pub delivered: String,
}

impl PrimaryKey<String> for SoldAt {
    open spec fn primary_key_spec(&self) -> Seq<char> {
        self.url@
    }

    fn primary_key(&self) -> (r: &String) {
        &self.url
    }
}

impl ForeignKey<ArticleName> for SoldAt {
    open spec fn foreign_key_spec(&self) -> Seq<char> {
        self.article_name@
    }

    fn foreign_key(&self) -> (r: &ArticleName) {
        &self.article_name
    }
}

#[derive(Clone, Copy, Debug, PartialEq, Eq, Structural)]
pub enum Usage {
    Mobile,
    Desktop,
    ServerOrEmbedded,
    Server,
    Embedded,
}

#[derive(Clone, Copy, Debug, PartialEq, Eq, Structural)]
pub enum Brand {
    Ryzen9,
    RyzenThreadripperPRO5000WX,
    RyzenThreadripper,
    EPYC7001,
    EPYC7002,
    EPYC7003,
    EPYC8004,
    EPYC9004,
    EPYC9005,
}

#[derive(Clone, Copy, Debug, PartialEq, Eq, Structural)]
pub enum MarketSegment {
    EnthusiastDesktop,
    Server,
}

/// A product line: the brand, with the usage where the line pins one down.
#[derive(Clone, Debug)]
pub struct ProductLine(pub Brand, pub Value<Usage>);

/// The socket a vendor string names.
pub open spec fn socket_of_str(s: Seq<char>) -> Option<CPUSocket> {
    if s == "AM4"@ {
        Some(CPUSocket::AM4)
    } else if s == "AM5"@ {
        Some(CPUSocket::AM5)
    } else if s == "sWRX8"@ {
        Some(CPUSocket::SWRX8)
    } else if s == "SP3"@ {
        Some(CPUSocket::SP3)
    } else if s == "SP5"@ {
        Some(CPUSocket::SP5)
    } else if s == "SP6"@ {
        Some(CPUSocket::SP6)
    } else if s == "sTR5"@ {
        Some(CPUSocket::STR5)
    } else if s == "FCLGA3647"@ {
        Some(CPUSocket::FCLGA3647)
    } else {
        None
    }
}

impl CPUSocket {
    /// Reads a socket from its vendor string.
    pub fn from_str(s: &str) -> (r: Option<CPUSocket>)
        ensures
            r == socket_of_str(s@),
    {
        if str_eq(s, "AM4") {
            Some(CPUSocket::AM4)
        } else if str_eq(s, "AM5") {
            Some(CPUSocket::AM5)
        } else if str_eq(s, "sWRX8") {
            Some(CPUSocket::SWRX8)
        } else if str_eq(s, "SP3") {
            Some(CPUSocket::SP3)
        } else if str_eq(s, "SP5") {
            Some(CPUSocket::SP5)
        } else if str_eq(s, "SP6") {
            Some(CPUSocket::SP6)
        } else if str_eq(s, "sTR5") {
            Some(CPUSocket::STR5)
        } else if str_eq(s, "FCLGA3647") {
            Some(CPUSocket::FCLGA3647)
        } else {
            None
        }
    }
}

/// The architecture a vendor string names.
pub open spec fn architecture_of_str(s: Seq<char>) -> Option<Architecture> {
    if s == "Zen 2"@ {
        Some(Architecture::Zen2)
    } else if s == "Zen 3"@ || s == "AMD \"Zen 3\" Core Architecture"@ {
        Some(Architecture::Zen3)
    } else if s == "Zen 4"@ {
        Some(Architecture::Zen4)
    } else if s == "Zen 4c"@ {
        Some(Architecture::Zen4c)
    } else if s == "Zen 5"@ {
        Some(Architecture::Zen5)
    } else if s == "AMD Infinity Architecture"@ {
        Some(Architecture::Infinity)
    } else {
        None
    }
}

impl Architecture {
    /// Reads an architecture from its vendor string.
    pub fn from_str(s: &str) -> (r: Option<Architecture>)
        ensures
            r == architecture_of_str(s@),
    {
        if str_eq(s, "Zen 2") {
            Some(Architecture::Zen2)
        } else if str_eq(s, "Zen 3") || str_eq(s, "AMD \"Zen 3\" Core Architecture") {
            Some(Architecture::Zen3)
        } else if str_eq(s, "Zen 4") {
            Some(Architecture::Zen4)
        } else if str_eq(s, "Zen 4c") {
            Some(Architecture::Zen4c)
        } else if str_eq(s, "Zen 5") {
            Some(Architecture::Zen5)
        } else if str_eq(s, "AMD Infinity Architecture") {
            Some(Architecture::Infinity)
        } else {
            None
        }
    }
}

/// The usage a vendor string names.
pub open spec fn usage_of_str(s: Seq<char>) -> Option<Usage> {
    if s == "Mobile"@ {
        Some(Usage::Mobile)
    } else if s == "Desktop"@ {
        Some(Usage::Desktop)
    } else if s == "ServerOrEmbedded"@ {
        Some(Usage::ServerOrEmbedded)
    } else if s == "Server"@ {
        Some(Usage::Server)
    } else if s == "Embedded"@ {
        Some(Usage::Embedded)
    } else {
        None
    }
}

impl Usage {
    /// Reads a usage from its vendor string.
    pub fn from_str(s: &str) -> (r: Option<Usage>)
        ensures
            r == usage_of_str(s@),
    {
        if str_eq(s, "Mobile") {
            Some(Usage::Mobile)
        } else if str_eq(s, "Desktop") {
            Some(Usage::Desktop)
        } else if str_eq(s, "ServerOrEmbedded") {
            Some(Usage::ServerOrEmbedded)
        } else if str_eq(s, "Server") {
            Some(Usage::Server)
        } else if str_eq(s, "Embedded") {
            Some(Usage::Embedded)
        } else {
            None
        }
    }
}

/// The brand a name and generation number describe.
pub open spec fn brand_of_parts(name: Seq<char>, generation: int) -> Option<Brand> {
    if name == "Ryzen"@ && generation == 9 {
        Some(Brand::Ryzen9)
    } else {
        None
    }
}

impl Brand {
    /// Reads a brand from a name and generation number.
    pub fn from_parts(name: &str, generation: u8) -> (r: Option<Brand>)
        ensures
            r == brand_of_parts(name@, generation as int),
    {
        if str_eq(name, "Ryzen") && generation == 9 {
            Some(Brand::Ryzen9)
        } else {
            None
        }
    }
}

/// Why a product-line string was refused.
#[derive(Clone, Copy, Debug, PartialEq, Eq, Structural)]
pub enum ProductLineError {
    /// The string does not split into exactly five space-separated words.
    BadShape,
    /// The first word is not AMD.
    NotAmd,
    /// The last word is not Processors.
    NotProcessors,
    /// The generation word is not an unsigned number that fits.
    BadGeneration,
    /// The brand word with its generation names no known brand.
    UnknownBrand,
    /// The usage word names no known usage.
    UnknownUsage,
}

/// The text splits on `c` into exactly five parts: four occurrences.
pub open spec fn splits_in_five(s: Seq<char>, c: char) -> bool {
    let p1 = find_at(s, c);
    p1 < s.len() && {
        let s1 = s.skip(p1 + 1);
        let p2 = find_at(s1, c);
        p2 < s1.len() && {
            let s2 = s1.skip(p2 + 1);
            let p3 = find_at(s2, c);
            p3 < s2.len() && {
                let s3 = s2.skip(p3 + 1);
                let p4 = find_at(s3, c);
                p4 < s3.len() && find_at(s3.skip(p4 + 1), c) == s3.skip(p4 + 1).len()
            }
        }
    }
}

/// The five space-separated words of a product-line string.
pub open spec fn five_words(s: Seq<char>) -> (
    Seq<char>,
    Seq<char>,
    Seq<char>,
    Seq<char>,
    Seq<char>,
) {
    let p1 = find_at(s, ' ');
    let s1 = s.skip(p1 + 1);
    let p2 = find_at(s1, ' ');
    let s2 = s1.skip(p2 + 1);
    let p3 = find_at(s2, ' ');
    let s3 = s2.skip(p3 + 1);
    let p4 = find_at(s3, ' ');
    (s.take(p1), s1.take(p2), s2.take(p3), s3.take(p4), s3.skip(p4 + 1))
}

/// The brand word with a trailing trademark sign removed.
pub open spec fn bare_brand_word(w: Seq<char>) -> Seq<char> {
    if w.len() > 0 && w.last() == '\u{2122}' {
        w.drop_last()
    } else {
        w
    }
}

/// The product line a vendor string names: one of the known full names, or
/// the general shape AMD <brand> <generation> <usage> Processors.
pub open spec fn product_line_of(s: Seq<char>) -> Result<ProductLine, ProductLineError> {
    if s == "AMD Ryzen\u{2122} Threadripper\u{2122} PRO 5000 WX-Series"@ {
        Ok(ProductLine(Brand::RyzenThreadripperPRO5000WX, Value::Present(Usage::Desktop)))
    } else if s == "AMD Ryzen\u{2122} 9 Processors"@ {
        Ok(ProductLine(Brand::Ryzen9, Value::Missing))
    } else if s == "AMD EPYC\u{2122} 7001 Series"@ {
        Ok(ProductLine(Brand::EPYC7001, Value::Present(Usage::ServerOrEmbedded)))
    } else if s == "AMD EPYC\u{2122} 7002 Series"@ {
        Ok(ProductLine(Brand::EPYC7002, Value::Present(Usage::ServerOrEmbedded)))
    } else if s == "AMD EPYC\u{2122} 7003 Series"@ {
        Ok(ProductLine(Brand::EPYC7003, Value::Present(Usage::Server)))
    } else if s == "AMD EPYC\u{2122} 8004 Series"@ {
        Ok(ProductLine(Brand::EPYC8004, Value::Present(Usage::ServerOrEmbedded)))
    } else if s == "AMD EPYC\u{2122} 9004 Series"@ {
        Ok(ProductLine(Brand::EPYC9004, Value::Present(Usage::ServerOrEmbedded)))
    } else if s == "AMD Ryzen\u{2122} Threadripper\u{2122} Processors"@ {
        Ok(ProductLine(Brand::RyzenThreadripper, Value::Missing))
    } else if !splits_in_five(s, ' ') {
        Err(ProductLineError::BadShape)
    } else {
        let (amd, brand, generation, usage, processors) = five_words(s);
        if amd != "AMD"@ {
            Err(ProductLineError::NotAmd)
        } else if processors != "Processors"@ {
            Err(ProductLineError::NotProcessors)
        } else if !field_ok(generation, 255) {
            Err(ProductLineError::BadGeneration)
        } else {
            match brand_of_parts(bare_brand_word(brand), digits_val(generation)) {
                Some(b) => match usage_of_str(usage) {
                    Some(u) => Ok(ProductLine(b, Value::Present(u))),
                    None => Err(ProductLineError::UnknownUsage),
                },
                None => Err(ProductLineError::UnknownBrand),
            }
        }
    }
}

/// Whether the text splits on `c` into exactly five parts.
fn splits_in_five_exec(s: &str, c: char) -> (r: bool)
    ensures
        r == splits_in_five(s@, c),
{
    let n = s.unicode_len();
    let p1 = find_char(s, c);
    if p1 == n {
        return false;
    }
    let s1 = s.substring_char(p1 + 1, n);
    proof {
        assert(s1@ =~= s@.skip(p1 as int + 1));
    }
    let n1 = s1.unicode_len();
    let p2 = find_char(s1, c);
    if p2 == n1 {
        return false;
    }
    let s2 = s1.substring_char(p2 + 1, n1);
    proof {
        assert(s2@ =~= s1@.skip(p2 as int + 1));
    }
    let n2 = s2.unicode_len();
    let p3 = find_char(s2, c);
    if p3 == n2 {
        return false;
    }
    let s3 = s2.substring_char(p3 + 1, n2);
    proof {
        assert(s3@ =~= s2@.skip(p3 as int + 1));
    }
    let n3 = s3.unicode_len();
    let p4 = find_char(s3, c);
    if p4 == n3 {
        return false;
    }
    let s4 = s3.substring_char(p4 + 1, n3);
    proof {
        assert(s4@ =~= s3@.skip(p4 as int + 1));
    }
    find_char(s4, c) == s4.unicode_len()
}

impl ProductLine {
    /// Reads a product line from its vendor string.
    pub fn from_str(s: &str) -> (r: Result<ProductLine, ProductLineError>)
        ensures
            r == product_line_of(s@),
    {
        if str_eq(s, "AMD Ryzen\u{2122} Threadripper\u{2122} PRO 5000 WX-Series") {
            return Ok(
                ProductLine(Brand::RyzenThreadripperPRO5000WX, Value::Present(Usage::Desktop)),
            );
        }
        if str_eq(s, "AMD Ryzen\u{2122} 9 Processors") {
            return Ok(ProductLine(Brand::Ryzen9, Value::Missing));
        }
        if str_eq(s, "AMD EPYC\u{2122} 7001 Series") {
            return Ok(ProductLine(Brand::EPYC7001, Value::Present(Usage::ServerOrEmbedded)));
        }
        if str_eq(s, "AMD EPYC\u{2122} 7002 Series") {
            return Ok(ProductLine(Brand::EPYC7002, Value::Present(Usage::ServerOrEmbedded)));
        }
        if str_eq(s, "AMD EPYC\u{2122} 7003 Series") {
            return Ok(ProductLine(Brand::EPYC7003, Value::Present(Usage::Server)));
        }
        if str_eq(s, "AMD EPYC\u{2122} 8004 Series") {
            return Ok(ProductLine(Brand::EPYC8004, Value::Present(Usage::ServerOrEmbedded)));
        }
        if str_eq(s, "AMD EPYC\u{2122} 9004 Series") {
            return Ok(ProductLine(Brand::EPYC9004, Value::Present(Usage::ServerOrEmbedded)));
        }
        if str_eq(s, "AMD Ryzen\u{2122} Threadripper\u{2122} Processors") {
            return Ok(ProductLine(Brand::RyzenThreadripper, Value::Missing));
        }
        if !splits_in_five_exec(s, ' ') {
            return Err(ProductLineError::BadShape);
        }
        let n = s.unicode_len();
        let p1 = find_char(s, ' ');
        let amd = s.substring_char(0, p1);
        let s1 = s.substring_char(p1 + 1, n);
        proof {
            assert(amd@ =~= s@.take(p1 as int));
            assert(s1@ =~= s@.skip(p1 as int + 1));
        }
        let n1 = s1.unicode_len();
        let p2 = find_char(s1, ' ');
        let brand_word = s1.substring_char(0, p2);
        let s2 = s1.substring_char(p2 + 1, n1);
        proof {
            assert(brand_word@ =~= s1@.take(p2 as int));
            assert(s2@ =~= s1@.skip(p2 as int + 1));
        }
        let n2 = s2.unicode_len();
        let p3 = find_char(s2, ' ');
        let generation_word = s2.substring_char(0, p3);
        let s3 = s2.substring_char(p3 + 1, n2);
        proof {
            assert(generation_word@ =~= s2@.take(p3 as int));
            assert(s3@ =~= s2@.skip(p3 as int + 1));
        }
        let n3 = s3.unicode_len();
        let p4 = find_char(s3, ' ');
        let usage_word = s3.substring_char(0, p4);
        let processors = s3.substring_char(p4 + 1, n3);
        proof {
            assert(usage_word@ =~= s3@.take(p4 as int));
            assert(processors@ =~= s3@.skip(p4 as int + 1));
        }
        if !str_eq(amd, "AMD") {
            return Err(ProductLineError::NotAmd);
        }
        if !str_eq(processors, "Processors") {
            return Err(ProductLineError::NotProcessors);
        }
        let generation: u16 = match digits_value_capped(generation_word, 255) {
            Some(v) => v,
            None => {
                return Err(ProductLineError::BadGeneration);
            },
        };
        let bl = brand_word.unicode_len();
        let bare: &str = if bl > 0 && brand_word.get_char(bl - 1) == '\u{2122}' {
            let stripped = brand_word.substring_char(0, bl - 1);
            proof {
                assert(stripped@ =~= brand_word@.drop_last());
            }
            stripped
        } else {
            brand_word
        };
        proof {
            assert(bare@ == bare_brand_word(brand_word@));
        }
        let b = match Brand::from_parts(bare, generation as u8) {
            Some(b) => b,
            None => {
                return Err(ProductLineError::UnknownBrand);
            },
        };
        match Usage::from_str(usage_word) {
            Some(u) => Ok(ProductLine(b, Value::Present(u))),
            None => Err(ProductLineError::UnknownUsage),
        }
    }
}

} // verus!
