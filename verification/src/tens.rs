//! Powers of ten as 256-bit numbers, looked up in a table.

use vstd::prelude::*;

verus! {

/// A number of 256 bits, as its upper and its lower 128 bits.
#[derive(Debug, Clone, Copy, PartialEq, Eq, Default)]
pub struct U256 {
    pub hi: u128,
    pub lo: u128,
}

impl U256 {
    /// The number.
    pub open spec fn value(self) -> nat {
        (self.hi * 0x1_0000_0000_0000_0000_0000_0000_0000_0000 + self.lo) as nat
    }

    /// The number with the upper bits `hi` and the lower bits `lo`.
    pub fn from_words(hi: u128, lo: u128) -> (number: Self)
        ensures
            number.hi == hi,
            number.lo == lo,
    {
        U256 { hi, lo }
    }

    /// The upper and the lower bits of the number.
    pub fn into_words(self) -> (words: (u128, u128))
        ensures
            words == (self.hi, self.lo),
    {
        (self.hi, self.lo)
    }
}

/// Ten to the power of `n`.
pub open spec fn pow10(n: nat) -> nat
    decreases n,
{
    if n == 0 {
        1
    } else {
        10 * pow10((n - 1) as nat)
    }
}

/// The powers of ten with the exponents 0 to 19, written out.
proof fn lemma_pow10_from_0()
    ensures
        pow10(0) == 1,
        pow10(1) == 10,
        pow10(2) == 100,
        pow10(3) == 1_000,
        pow10(4) == 10_000,
        pow10(5) == 100_000,
        pow10(6) == 1_000_000,
        pow10(7) == 10_000_000,
        pow10(8) == 100_000_000,
        pow10(9) == 1_000_000_000,
        pow10(10) == 10_000_000_000,
        pow10(11) == 100_000_000_000,
        pow10(12) == 1_000_000_000_000,
        pow10(13) == 10_000_000_000_000,
        pow10(14) == 100_000_000_000_000,
        pow10(15) == 1_000_000_000_000_000,
        pow10(16) == 10_000_000_000_000_000,
        pow10(17) == 100_000_000_000_000_000,
        pow10(18) == 1_000_000_000_000_000_000,
        pow10(19) == 10_000_000_000_000_000_000,
{
    reveal_with_fuel(pow10, 21);
}

/// The powers of ten with the exponents 20 to 39, written out.
proof fn lemma_pow10_from_20()
    requires
        pow10(19) == 10_000_000_000_000_000_000,
    ensures
        pow10(20) == 100_000_000_000_000_000_000,
        pow10(21) == 1_000_000_000_000_000_000_000,
        pow10(22) == 10_000_000_000_000_000_000_000,
        pow10(23) == 100_000_000_000_000_000_000_000,
        pow10(24) == 1_000_000_000_000_000_000_000_000,
        pow10(25) == 10_000_000_000_000_000_000_000_000,
        pow10(26) == 100_000_000_000_000_000_000_000_000,
        pow10(27) == 1_000_000_000_000_000_000_000_000_000,
        pow10(28) == 10_000_000_000_000_000_000_000_000_000,
        pow10(29) == 100_000_000_000_000_000_000_000_000_000,
        pow10(30) == 1_000_000_000_000_000_000_000_000_000_000,
        pow10(31) == 10_000_000_000_000_000_000_000_000_000_000,
        pow10(32) == 100_000_000_000_000_000_000_000_000_000_000,
        pow10(33) == 1_000_000_000_000_000_000_000_000_000_000_000,
        pow10(34) == 10_000_000_000_000_000_000_000_000_000_000_000,
        pow10(35) == 100_000_000_000_000_000_000_000_000_000_000_000,
        pow10(36) == 1_000_000_000_000_000_000_000_000_000_000_000_000,
        pow10(37) == 10_000_000_000_000_000_000_000_000_000_000_000_000,
        pow10(38) == 100_000_000_000_000_000_000_000_000_000_000_000_000,
        pow10(39) == 1_000_000_000_000_000_000_000_000_000_000_000_000_000,
{
    reveal_with_fuel(pow10, 21);
}

/// The powers of ten with the exponents 40 to 59, written out.
proof fn lemma_pow10_from_40()
    requires
        pow10(39) == 1_000_000_000_000_000_000_000_000_000_000_000_000_000,
    ensures
        pow10(40) == 10_000_000_000_000_000_000_000_000_000_000_000_000_000,
        pow10(41) == 100_000_000_000_000_000_000_000_000_000_000_000_000_000,
        pow10(42) == 1_000_000_000_000_000_000_000_000_000_000_000_000_000_000,
        pow10(43) == 10_000_000_000_000_000_000_000_000_000_000_000_000_000_000,
        pow10(44) == 100_000_000_000_000_000_000_000_000_000_000_000_000_000_000,
        pow10(45) == 1_000_000_000_000_000_000_000_000_000_000_000_000_000_000_000,
        pow10(46) == 10_000_000_000_000_000_000_000_000_000_000_000_000_000_000_000,
        pow10(47) == 100_000_000_000_000_000_000_000_000_000_000_000_000_000_000_000,
        pow10(48) == 1_000_000_000_000_000_000_000_000_000_000_000_000_000_000_000_000,
        pow10(49) == 10_000_000_000_000_000_000_000_000_000_000_000_000_000_000_000_000,
        pow10(50) == 100_000_000_000_000_000_000_000_000_000_000_000_000_000_000_000_000,
        pow10(51) == 1_000_000_000_000_000_000_000_000_000_000_000_000_000_000_000_000_000,
        pow10(52) == 10_000_000_000_000_000_000_000_000_000_000_000_000_000_000_000_000_000,
        pow10(53) == 100_000_000_000_000_000_000_000_000_000_000_000_000_000_000_000_000_000,
        pow10(54) == 1_000_000_000_000_000_000_000_000_000_000_000_000_000_000_000_000_000_000,
        pow10(55) == 10_000_000_000_000_000_000_000_000_000_000_000_000_000_000_000_000_000_000,
        pow10(56) == 100_000_000_000_000_000_000_000_000_000_000_000_000_000_000_000_000_000_000,
        pow10(57) == 1_000_000_000_000_000_000_000_000_000_000_000_000_000_000_000_000_000_000_000,
        pow10(58) == 10_000_000_000_000_000_000_000_000_000_000_000_000_000_000_000_000_000_000_000,
        pow10(59) == 100_000_000_000_000_000_000_000_000_000_000_000_000_000_000_000_000_000_000_000,
{
    reveal_with_fuel(pow10, 21);
}

/// The powers of ten with the exponents 60 to 77, written out.
proof fn lemma_pow10_from_60()
    requires
        pow10(59) == 100_000_000_000_000_000_000_000_000_000_000_000_000_000_000_000_000_000_000_000,
    ensures
        pow10(60) == 1_000_000_000_000_000_000_000_000_000_000_000_000_000_000_000_000_000_000_000_000,
        pow10(61) == 10_000_000_000_000_000_000_000_000_000_000_000_000_000_000_000_000_000_000_000_000,
        pow10(62) == 100_000_000_000_000_000_000_000_000_000_000_000_000_000_000_000_000_000_000_000_000,
        pow10(63) == 1_000_000_000_000_000_000_000_000_000_000_000_000_000_000_000_000_000_000_000_000_000,
        pow10(64) == 10_000_000_000_000_000_000_000_000_000_000_000_000_000_000_000_000_000_000_000_000_000,
        pow10(65) == 100_000_000_000_000_000_000_000_000_000_000_000_000_000_000_000_000_000_000_000_000_000,
        pow10(66) == 1_000_000_000_000_000_000_000_000_000_000_000_000_000_000_000_000_000_000_000_000_000_000,
        pow10(67) == 10_000_000_000_000_000_000_000_000_000_000_000_000_000_000_000_000_000_000_000_000_000_000,
        pow10(68) == 100_000_000_000_000_000_000_000_000_000_000_000_000_000_000_000_000_000_000_000_000_000_000,
        pow10(69) == 1_000_000_000_000_000_000_000_000_000_000_000_000_000_000_000_000_000_000_000_000_000_000_000,
        pow10(70) == 10_000_000_000_000_000_000_000_000_000_000_000_000_000_000_000_000_000_000_000_000_000_000_000,
        pow10(71) == 100_000_000_000_000_000_000_000_000_000_000_000_000_000_000_000_000_000_000_000_000_000_000_000,
        pow10(72) == 1_000_000_000_000_000_000_000_000_000_000_000_000_000_000_000_000_000_000_000_000_000_000_000_000,
        pow10(73) == 10_000_000_000_000_000_000_000_000_000_000_000_000_000_000_000_000_000_000_000_000_000_000_000_000,
        pow10(74) == 100_000_000_000_000_000_000_000_000_000_000_000_000_000_000_000_000_000_000_000_000_000_000_000_000,
        pow10(75) == 1_000_000_000_000_000_000_000_000_000_000_000_000_000_000_000_000_000_000_000_000_000_000_000_000_000,
        pow10(76) == 10_000_000_000_000_000_000_000_000_000_000_000_000_000_000_000_000_000_000_000_000_000_000_000_000_000,
        pow10(77) == 100_000_000_000_000_000_000_000_000_000_000_000_000_000_000_000_000_000_000_000_000_000_000_000_000_000,
{
    reveal_with_fuel(pow10, 19);
}

/// Ten to the power of `x`, in constant time. The largest power that 256
/// bits hold is the 77th.
pub fn exp10(x: u8) -> (power: U256)
    requires
        x <= 77,
    ensures
        power.value() == pow10(x as nat),
{
    proof {
        lemma_pow10_from_0();
        lemma_pow10_from_20();
        lemma_pow10_from_40();
        lemma_pow10_from_60();
    }
    match x {
        0 => U256 { hi: 0, lo: 1 },
        1 => U256 { hi: 0, lo: 10 },
        2 => U256 { hi: 0, lo: 100 },
        3 => U256 { hi: 0, lo: 1_000 },
        4 => U256 { hi: 0, lo: 10_000 },
        5 => U256 { hi: 0, lo: 100_000 },
        6 => U256 { hi: 0, lo: 1_000_000 },
        7 => U256 { hi: 0, lo: 10_000_000 },
        8 => U256 { hi: 0, lo: 100_000_000 },
        9 => U256 { hi: 0, lo: 1_000_000_000 },
        10 => U256 { hi: 0, lo: 10_000_000_000 },
        11 => U256 { hi: 0, lo: 100_000_000_000 },
        12 => U256 { hi: 0, lo: 1_000_000_000_000 },
        13 => U256 { hi: 0, lo: 10_000_000_000_000 },
        14 => U256 { hi: 0, lo: 100_000_000_000_000 },
        15 => U256 { hi: 0, lo: 1_000_000_000_000_000 },
        16 => U256 { hi: 0, lo: 10_000_000_000_000_000 },
        17 => U256 { hi: 0, lo: 100_000_000_000_000_000 },
        18 => U256 { hi: 0, lo: 1_000_000_000_000_000_000 },
        19 => U256 { hi: 0, lo: 10_000_000_000_000_000_000 },
        20 => U256 { hi: 0, lo: 100_000_000_000_000_000_000 },
        21 => U256 { hi: 0, lo: 1_000_000_000_000_000_000_000 },
        22 => U256 { hi: 0, lo: 10_000_000_000_000_000_000_000 },
        23 => U256 { hi: 0, lo: 100_000_000_000_000_000_000_000 },
        24 => U256 { hi: 0, lo: 1_000_000_000_000_000_000_000_000 },
        25 => U256 { hi: 0, lo: 10_000_000_000_000_000_000_000_000 },
        26 => U256 { hi: 0, lo: 100_000_000_000_000_000_000_000_000 },
        27 => U256 { hi: 0, lo: 1_000_000_000_000_000_000_000_000_000 },
        28 => U256 { hi: 0, lo: 10_000_000_000_000_000_000_000_000_000 },
        29 => U256 { hi: 0, lo: 100_000_000_000_000_000_000_000_000_000 },
        30 => U256 { hi: 0, lo: 1_000_000_000_000_000_000_000_000_000_000 },
        31 => U256 { hi: 0, lo: 10_000_000_000_000_000_000_000_000_000_000 },
        32 => U256 { hi: 0, lo: 100_000_000_000_000_000_000_000_000_000_000 },
        33 => U256 { hi: 0, lo: 1_000_000_000_000_000_000_000_000_000_000_000 },
        34 => U256 { hi: 0, lo: 10_000_000_000_000_000_000_000_000_000_000_000 },
        35 => U256 { hi: 0, lo: 100_000_000_000_000_000_000_000_000_000_000_000 },
        36 => U256 { hi: 0, lo: 1_000_000_000_000_000_000_000_000_000_000_000_000 },
        37 => U256 { hi: 0, lo: 10_000_000_000_000_000_000_000_000_000_000_000_000 },
        38 => U256 { hi: 0, lo: 100_000_000_000_000_000_000_000_000_000_000_000_000 },
        39 => U256 { hi: 2, lo: 319_435_266_158_123_073_073_250_785_136_463_577_088 },
        40 => U256 { hi: 29, lo: 131_811_359_292_784_559_562_136_384_478_721_867_776 },
        41 => U256 { hi: 293, lo: 297_266_492_165_030_205_231_240_022_491_914_043_392 },
        42 => U256 { hi: 2_938, lo: 250_405_986_282_794_344_605_403_365_464_994_742_272 },
        43 => U256 { hi: 29_387, lo: 122_083_294_381_374_201_810_411_402_627_569_942_528 },
        44 => U256 { hi: 293_873, lo: 199_985_843_050_926_627_713_990_203_980_394_790_912 },
        45 => U256 { hi: 2_938_735, lo: 298_446_595_904_573_959_823_029_002_645_106_851_840 },
        46 => U256 { hi: 29_387_358, lo: 262_207_023_678_231_890_523_293_166_996_922_826_752 },
        47 => U256 { hi: 293_873_587, lo: 240_093_668_335_749_660_989_309_417_946_850_787_328 },
        48 => U256 { hi: 2_938_735_877, lo: 18_960_114_910_927_365_649_471_927_446_130_393_088 },
        49 => U256 { hi: 29_387_358_770, lo: 189_601_149_109_273_656_494_719_274_461_303_930_880 },
        50 => U256 { hi: 293_873_587_705, lo: 194_599_656_488_044_247_630_319_707_454_198_251_520 },
        51 => U256 { hi: 2_938_735_877_055, lo: 244_584_730_275_750_158_986_324_037_383_141_457_920 },
        52 => U256 { hi: 29_387_358_770_557, lo: 63_870_734_310_932_345_619_618_121_809_037_099_008 },
        53 => U256 { hi: 293_873_587_705_571, lo: 298_424_976_188_384_992_732_806_610_658_602_778_624 },
        54 => U256 { hi: 2_938_735_877_055_718, lo: 261_990_826_516_342_219_621_069_247_131_882_094_592 },
        55 => U256 { hi: 29_387_358_770_557_187, lo: 237_931_696_716_852_951_967_070_219_296_443_465_728 },
        56 => U256 { hi: 293_873_587_705_571_876, lo: 337_622_765_642_898_738_890_454_548_373_825_388_544 },
        57 => U256 { hi: 2_938_735_877_055_718_769, lo: 313_686_354_140_541_217_734_174_016_852_339_982_336 },
        58 => U256 { hi: 29_387_358_770_557_187_699, lo: 74_322_239_116_966_006_171_368_701_637_485_920_256 },
        59 => U256 { hi: 293_873_587_705_571_876_992, lo: 62_657_657_327_783_134_786_937_801_511_322_779_648 },
        60 => U256 { hi: 2_938_735_877_055_718_769_921, lo: 286_294_206_356_892_884_406_003_407_681_459_585_024 },
        61 => U256 { hi: 29_387_358_770_557_187_699_218, lo: 140_683_128_201_421_136_353_037_217_360_450_158_592 },
        62 => U256 { hi: 293_873_587_705_571_876_992_184, lo: 45_701_814_330_457_509_676_873_743_877_428_740_096 },
        63 => U256 { hi: 2_938_735_877_055_718_769_921_841, lo: 116_735_776_383_636_633_305_362_831_342_519_189_504 },
        64 => U256 { hi: 29_387_358_770_557_187_699_218_413, lo: 146_510_663_073_550_942_663_504_491_129_887_260_672 },
        65 => U256 { hi: 293_873_587_705_571_876_992_184_134, lo: 103_977_163_051_755_572_781_546_481_571_799_760_896 },
        66 => U256 { hi: 2_938_735_877_055_718_769_921_841_343, lo: 18_924_529_754_740_337_425_340_993_422_692_974_592 },
        67 => U256 { hi: 29_387_358_770_557_187_699_218_413_430, lo: 189_245_297_547_403_374_253_409_934_226_929_745_920 },
        68 => U256 { hi: 293_873_587_705_571_876_992_184_134_305, lo: 191_041_140_869_341_425_217_226_305_110_456_401_920 },
        69 => U256 { hi: 2_938_735_877_055_718_769_921_841_343_055, lo: 208_999_574_088_721_934_855_390_013_945_722_961_920 },
        70 => U256 { hi: 29_387_358_770_557_187_699_218_413_430_556, lo: 48_301_539_361_588_567_773_652_494_866_620_350_464 },
        71 => U256 { hi: 293_873_587_705_571_876_992_184_134_305_561, lo: 142_733_026_694_947_214_273_150_341_234_435_293_184 },
        72 => U256 { hi: 2_938_735_877_055_718_769_921_841_343_055_614, lo: 66_200_799_265_718_288_878_004_982_617_280_086_016 },
        73 => U256 { hi: 29_387_358_770_557_187_699_218_413_430_556_141, lo: 321_725_625_736_244_425_316_675_218_741_032_648_704 },
        74 => U256 { hi: 293_873_587_705_571_876_992_184_134_305_561_419, lo: 154_714_955_073_998_081_996_380_720_524_412_583_936 },
        75 => U256 { hi: 2_938_735_877_055_718_769_921_841_343_055_614_194, lo: 186_020_083_056_226_966_110_308_775_517_052_993_536 },
        76 => U256 { hi: 29_387_358_770_557_187_699_218_413_430_556_141_945, lo: 158_788_995_957_577_343_786_214_718_011_688_878_080 },
        _ => U256 { hi: 293_873_587_705_571_876_992_184_134_305_561_419_454, lo: 226_760_491_892_019_584_008_648_750_389_815_934_976 },
    }
}

} // verus!
