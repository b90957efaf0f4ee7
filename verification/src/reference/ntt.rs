use vstd::prelude::*;
use vstd::arithmetic::div_mod::*;
use vstd::arithmetic::mul::*;
use crate::params::{KYBER_N, KYBER_Q};
use crate::reference::reduce::{q, mont_r, mont_r_inv, lemma_constants, montgomery_reduce, add_mod, sub_mod};

verus! {

/// Layer-order zetas in Montgomery domain, centered:
/// `ZETAS[k] = zeta^brv7(k) * 2^64 mod q` for the primitive 256-th root of
/// unity `zeta = 4914799530725508435` modulo q.
pub const ZETAS: [i128; 128] = [
    4611686018433653247i128,
    6775496934782943343i128,
    -2009471431703899311i128,
    -1328232688688911287i128,
    -1002745027200374681i128,
    4065724602514105411i128,
    2919437507106638680i128,
    319924368957496599i128,
    -4937142386123851074i128,
    -2046042962112950785i128,
    -5404690735978538842i128,
    -6606314814373324632i128,
    -270228248844215435i128,
    6129907493117356186i128,
    -4960492513664852441i128,
    -6059951808049000894i128,
    3669995908980165229i128,
    4471194529861214218i128,
    -1275871039369993539i128,
    4562826861878496655i128,
    2822996399665595795i128,
    5082037695556247343i128,
    745738841633068290i128,
    633169733644942350i128,
    3458111977077273059i128,
    4065489346010616149i128,
    6876880878865852470i128,
    -6806000428358751151i128,
    -3410546557051774221i128,
    -2069297829992143500i128,
    -5891018715525901177i128,
    262987071806669675i128,
    -4209832979942217088i128,
    -4853399977178133286i128,
    -4469635722433500072i128,
    -2719828446725532201i128,
    2932733688436728947i128,
    3225024695543939740i128,
    -437831722710114117i128,
    4689031949574032495i128,
    -460795627035938008i128,
    -2729900186852309429i128,
    4958831375230657507i128,
    4314914257997048595i128,
    2689539792066314476i128,
    1556876955611316366i128,
    4127901432139452371i128,
    4250483512101983420i128,
    -6256633931762637093i128,
    -4681664571588944144i128,
    156650692426433285i128,
    2069716819461342925i128,
    -3044589325454650383i128,
    1462662603041285163i128,
    4609624266595818327i128,
    6674403165336970061i128,
    -338581298071975759i128,
    2040836476977888315i128,
    -273191801007909499i128,
    -2656845851757036308i128,
    -44711985415143478i128,
    6353563406977357718i128,
    3031822331272221894i128,
    -762779014219402480i128,
    -2372743451200819209i128,
    -4479457842878286898i128,
    -5808516804873542315i128,
    5202493321066001563i128,
    2664425064816597460i128,
    4127525199519907716i128,
    -5367643274131333069i128,
    -2101288124888178948i128,
    -2164111735454328589i128,
    3426632667190719615i128,
    -1449132584730080406i128,
    -4033040700149638753i128,
    -4568336411430482635i128,
    5475667053731798313i128,
    4835718490655127805i128,
    -3262171357217770981i128,
    -721708503450034379i128,
    -442230070471120890i128,
    6488316196029542432i128,
    3668928761566150171i128,
    1879062554842413453i128,
    6622523374060929081i128,
    4497823662372655678i128,
    2181189622346755299i128,
    3343598498793886526i128,
    -5832667444522673062i128,
    -5769155328229301819i128,
    -4683268811401307848i128,
    -432338560991021804i128,
    -3488522677917641439i128,
    -1748976110565841208i128,
    1931908146623244118i128,
    101008600497379161i128,
    6678619682012113901i128,
    6864728106536110716i128,
    -4854416514682753834i128,
    2263811077158641856i128,
    -3831832212124189303i128,
    2577497029180678273i128,
    -3316505856631513396i128,
    141308948101872457i128,
    4037194506457022523i128,
    5142836145630396386i128,
    -1159634373834138383i128,
    1103814451303893121i128,
    -5107084311639924838i128,
    2580699593472304997i128,
    -4201594893426059755i128,
    4176366008162680626i128,
    2749976035880187188i128,
    -3221175483079064863i128,
    3864261972939933101i128,
    4915914795301596551i128,
    4691404023415064847i128,
    -2009294716216636780i128,
    -6666406931716436834i128,
    75700364447871879i128,
    -6382679092994900854i128,
    -1821567887061005068i128,
    6856719230399980910i128,
    1577653652171756991i128,
    393060495186118832i128,
    -701047631524101030i128,
    -313778452114125462i128,
];

/// Final inverse scaling: 2^64 / 128, so that a Montgomery multiplication by it
/// divides by 128.
pub const INV_SCALE: u64 = 144115188075855872u64;

/// Canonical representative of the zeta at position k of the table.
#[verifier::opaque]
pub open spec fn zeta_spec(k: int) -> int {
    let z = ZETAS@[k] as int;
    if z < 0 {
        z + q()
    } else {
        z
    }
}

/// Montgomery product of two residues: `a b 2^{-64} mod q`.
pub open spec fn fqmul_spec(a: int, b: int) -> int {
    (a * b * mont_r_inv()) % q()
}

/// The butterfly distances of the seven layers.
pub open spec fn is_layer_len(len: int) -> bool {
    len == 2 || len == 4 || len == 8 || len == 16 || len == 32 || len == 64 || len == 128
}

/// Every entry is a canonical residue in [0, q).
pub open spec fn canonical(x: Seq<int>) -> bool {
    forall|i: int| 0 <= i < x.len() ==> 0 <= #[trigger] x[i] < q()
}

/// The integer values of a sequence of machine words.
pub open spec fn u64s_to_ints(s: Seq<u64>) -> Seq<int> {
    Seq::new(s.len(), |i: int| s[i] as int)
}

/// One Cooley-Tukey layer of the forward transform on the first 256 entries:
/// within each block of `2 len` entries, entry `j` of the lower half and entry
/// `j + len` of the upper half become `x_j + z x_{j+len}` and
/// `x_j - z x_{j+len}` (Montgomery product by the block's zeta).
pub open spec fn ntt_layer(x: Seq<int>, len: int) -> Seq<int> {
    Seq::new(
        x.len(),
        |j: int|
            if j >= 256 {
                x[j]
            } else {
                let z = zeta_spec(128int / len + j / (2 * len));
                if j % (2 * len) < len {
                    (x[j] + fqmul_spec(z, x[j + len])) % q()
                } else {
                    (x[j - len] - fqmul_spec(z, x[j])) % q()
                }
            },
    )
}

/// One Gentleman-Sande layer of the inverse transform on the first 256
/// entries: the lower entry becomes the sum and the upper entry the
/// difference (upper minus lower) multiplied by the block's zeta.
pub open spec fn invntt_layer(x: Seq<int>, len: int) -> Seq<int> {
    Seq::new(
        x.len(),
        |j: int|
            if j >= 256 {
                x[j]
            } else {
                let z = zeta_spec(256int / len - 1 - j / (2 * len));
                if j % (2 * len) < len {
                    (x[j] + x[j + len]) % q()
                } else {
                    fqmul_spec(z, (x[j] - x[j - len]) % q())
                }
            },
    )
}

/// Butterfly distance of forward layer `i` (0-based): 128, 64, ..., 2.
pub open spec fn fwd_len(i: int) -> int {
    if i == 0 { 128 } else if i == 1 { 64 } else if i == 2 { 32 } else if i == 3 { 16 }
    else if i == 4 { 8 } else if i == 5 { 4 } else { 2 }
}

/// Butterfly distance of inverse layer `i` (0-based): 2, 4, ..., 128.
pub open spec fn inv_len(i: int) -> int {
    fwd_len(6 - i)
}

/// The first `m` layers of the forward transform.
pub open spec fn ntt_layers(x: Seq<int>, m: nat) -> Seq<int>
    decreases m,
{
    if m == 0 {
        x
    } else {
        ntt_layer(ntt_layers(x, (m - 1) as nat), fwd_len(m - 1))
    }
}

/// The first `m` layers of the inverse transform.
pub open spec fn invntt_layers(x: Seq<int>, m: nat) -> Seq<int>
    decreases m,
{
    if m == 0 {
        x
    } else {
        invntt_layer(invntt_layers(x, (m - 1) as nat), inv_len(m - 1))
    }
}

/// The forward transform (all seven layers).
pub open spec fn ntt_spec(x: Seq<int>) -> Seq<int> {
    ntt_layers(x, 7)
}

/// The inverse transform: seven inverse layers on the first 256 entries,
/// then a Montgomery multiplication of every entry by `INV_SCALE`.
pub open spec fn invntt_spec(x: Seq<int>) -> Seq<int> {
    let y = invntt_layers(x, 7);
    Seq::new(y.len(), |j: int| fqmul_spec(y[j], INV_SCALE as int))
}

/// Every entry multiplied by `c`, modulo q.
pub open spec fn scale_mod(x: Seq<int>, c: int) -> Seq<int> {
    Seq::new(x.len(), |j: int| (c * x[j]) % q())
}

/// Bounds of the zeta table.
pub proof fn lemma_zeta(k: int)
    requires
        0 <= k < 128,
    ensures
        -q() < ZETAS@[k] < q(),
        0 <= zeta_spec(k) < q(),
{
    reveal(zeta_spec);
    if k == 0 {
        assert(ZETAS@[0] == 4611686018433653247i128);
    } else if k == 1 {
        assert(ZETAS@[1] == 6775496934782943343i128);
    } else if k == 2 {
        assert(ZETAS@[2] == -2009471431703899311i128);
    } else if k == 3 {
        assert(ZETAS@[3] == -1328232688688911287i128);
    } else if k == 4 {
        assert(ZETAS@[4] == -1002745027200374681i128);
    } else if k == 5 {
        assert(ZETAS@[5] == 4065724602514105411i128);
    } else if k == 6 {
        assert(ZETAS@[6] == 2919437507106638680i128);
    } else if k == 7 {
        assert(ZETAS@[7] == 319924368957496599i128);
    } else if k == 8 {
        assert(ZETAS@[8] == -4937142386123851074i128);
    } else if k == 9 {
        assert(ZETAS@[9] == -2046042962112950785i128);
    } else if k == 10 {
        assert(ZETAS@[10] == -5404690735978538842i128);
    } else if k == 11 {
        assert(ZETAS@[11] == -6606314814373324632i128);
    } else if k == 12 {
        assert(ZETAS@[12] == -270228248844215435i128);
    } else if k == 13 {
        assert(ZETAS@[13] == 6129907493117356186i128);
    } else if k == 14 {
        assert(ZETAS@[14] == -4960492513664852441i128);
    } else if k == 15 {
        assert(ZETAS@[15] == -6059951808049000894i128);
    } else if k == 16 {
        assert(ZETAS@[16] == 3669995908980165229i128);
    } else if k == 17 {
        assert(ZETAS@[17] == 4471194529861214218i128);
    } else if k == 18 {
        assert(ZETAS@[18] == -1275871039369993539i128);
    } else if k == 19 {
        assert(ZETAS@[19] == 4562826861878496655i128);
    } else if k == 20 {
        assert(ZETAS@[20] == 2822996399665595795i128);
    } else if k == 21 {
        assert(ZETAS@[21] == 5082037695556247343i128);
    } else if k == 22 {
        assert(ZETAS@[22] == 745738841633068290i128);
    } else if k == 23 {
        assert(ZETAS@[23] == 633169733644942350i128);
    } else if k == 24 {
        assert(ZETAS@[24] == 3458111977077273059i128);
    } else if k == 25 {
        assert(ZETAS@[25] == 4065489346010616149i128);
    } else if k == 26 {
        assert(ZETAS@[26] == 6876880878865852470i128);
    } else if k == 27 {
        assert(ZETAS@[27] == -6806000428358751151i128);
    } else if k == 28 {
        assert(ZETAS@[28] == -3410546557051774221i128);
    } else if k == 29 {
        assert(ZETAS@[29] == -2069297829992143500i128);
    } else if k == 30 {
        assert(ZETAS@[30] == -5891018715525901177i128);
    } else if k == 31 {
        assert(ZETAS@[31] == 262987071806669675i128);
    } else if k == 32 {
        assert(ZETAS@[32] == -4209832979942217088i128);
    } else if k == 33 {
        assert(ZETAS@[33] == -4853399977178133286i128);
    } else if k == 34 {
        assert(ZETAS@[34] == -4469635722433500072i128);
    } else if k == 35 {
        assert(ZETAS@[35] == -2719828446725532201i128);
    } else if k == 36 {
        assert(ZETAS@[36] == 2932733688436728947i128);
    } else if k == 37 {
        assert(ZETAS@[37] == 3225024695543939740i128);
    } else if k == 38 {
        assert(ZETAS@[38] == -437831722710114117i128);
    } else if k == 39 {
        assert(ZETAS@[39] == 4689031949574032495i128);
    } else if k == 40 {
        assert(ZETAS@[40] == -460795627035938008i128);
    } else if k == 41 {
        assert(ZETAS@[41] == -2729900186852309429i128);
    } else if k == 42 {
        assert(ZETAS@[42] == 4958831375230657507i128);
    } else if k == 43 {
        assert(ZETAS@[43] == 4314914257997048595i128);
    } else if k == 44 {
        assert(ZETAS@[44] == 2689539792066314476i128);
    } else if k == 45 {
        assert(ZETAS@[45] == 1556876955611316366i128);
    } else if k == 46 {
        assert(ZETAS@[46] == 4127901432139452371i128);
    } else if k == 47 {
        assert(ZETAS@[47] == 4250483512101983420i128);
    } else if k == 48 {
        assert(ZETAS@[48] == -6256633931762637093i128);
    } else if k == 49 {
        assert(ZETAS@[49] == -4681664571588944144i128);
    } else if k == 50 {
        assert(ZETAS@[50] == 156650692426433285i128);
    } else if k == 51 {
        assert(ZETAS@[51] == 2069716819461342925i128);
    } else if k == 52 {
        assert(ZETAS@[52] == -3044589325454650383i128);
    } else if k == 53 {
        assert(ZETAS@[53] == 1462662603041285163i128);
    } else if k == 54 {
        assert(ZETAS@[54] == 4609624266595818327i128);
    } else if k == 55 {
        assert(ZETAS@[55] == 6674403165336970061i128);
    } else if k == 56 {
        assert(ZETAS@[56] == -338581298071975759i128);
    } else if k == 57 {
        assert(ZETAS@[57] == 2040836476977888315i128);
    } else if k == 58 {
        assert(ZETAS@[58] == -273191801007909499i128);
    } else if k == 59 {
        assert(ZETAS@[59] == -2656845851757036308i128);
    } else if k == 60 {
        assert(ZETAS@[60] == -44711985415143478i128);
    } else if k == 61 {
        assert(ZETAS@[61] == 6353563406977357718i128);
    } else if k == 62 {
        assert(ZETAS@[62] == 3031822331272221894i128);
    } else if k == 63 {
        assert(ZETAS@[63] == -762779014219402480i128);
    } else if k == 64 {
        assert(ZETAS@[64] == -2372743451200819209i128);
    } else if k == 65 {
        assert(ZETAS@[65] == -4479457842878286898i128);
    } else if k == 66 {
        assert(ZETAS@[66] == -5808516804873542315i128);
    } else if k == 67 {
        assert(ZETAS@[67] == 5202493321066001563i128);
    } else if k == 68 {
        assert(ZETAS@[68] == 2664425064816597460i128);
    } else if k == 69 {
        assert(ZETAS@[69] == 4127525199519907716i128);
    } else if k == 70 {
        assert(ZETAS@[70] == -5367643274131333069i128);
    } else if k == 71 {
        assert(ZETAS@[71] == -2101288124888178948i128);
    } else if k == 72 {
        assert(ZETAS@[72] == -2164111735454328589i128);
    } else if k == 73 {
        assert(ZETAS@[73] == 3426632667190719615i128);
    } else if k == 74 {
        assert(ZETAS@[74] == -1449132584730080406i128);
    } else if k == 75 {
        assert(ZETAS@[75] == -4033040700149638753i128);
    } else if k == 76 {
        assert(ZETAS@[76] == -4568336411430482635i128);
    } else if k == 77 {
        assert(ZETAS@[77] == 5475667053731798313i128);
    } else if k == 78 {
        assert(ZETAS@[78] == 4835718490655127805i128);
    } else if k == 79 {
        assert(ZETAS@[79] == -3262171357217770981i128);
    } else if k == 80 {
        assert(ZETAS@[80] == -721708503450034379i128);
    } else if k == 81 {
        assert(ZETAS@[81] == -442230070471120890i128);
    } else if k == 82 {
        assert(ZETAS@[82] == 6488316196029542432i128);
    } else if k == 83 {
        assert(ZETAS@[83] == 3668928761566150171i128);
    } else if k == 84 {
        assert(ZETAS@[84] == 1879062554842413453i128);
    } else if k == 85 {
        assert(ZETAS@[85] == 6622523374060929081i128);
    } else if k == 86 {
        assert(ZETAS@[86] == 4497823662372655678i128);
    } else if k == 87 {
        assert(ZETAS@[87] == 2181189622346755299i128);
    } else if k == 88 {
        assert(ZETAS@[88] == 3343598498793886526i128);
    } else if k == 89 {
        assert(ZETAS@[89] == -5832667444522673062i128);
    } else if k == 90 {
        assert(ZETAS@[90] == -5769155328229301819i128);
    } else if k == 91 {
        assert(ZETAS@[91] == -4683268811401307848i128);
    } else if k == 92 {
        assert(ZETAS@[92] == -432338560991021804i128);
    } else if k == 93 {
        assert(ZETAS@[93] == -3488522677917641439i128);
    } else if k == 94 {
        assert(ZETAS@[94] == -1748976110565841208i128);
    } else if k == 95 {
        assert(ZETAS@[95] == 1931908146623244118i128);
    } else if k == 96 {
        assert(ZETAS@[96] == 101008600497379161i128);
    } else if k == 97 {
        assert(ZETAS@[97] == 6678619682012113901i128);
    } else if k == 98 {
        assert(ZETAS@[98] == 6864728106536110716i128);
    } else if k == 99 {
        assert(ZETAS@[99] == -4854416514682753834i128);
    } else if k == 100 {
        assert(ZETAS@[100] == 2263811077158641856i128);
    } else if k == 101 {
        assert(ZETAS@[101] == -3831832212124189303i128);
    } else if k == 102 {
        assert(ZETAS@[102] == 2577497029180678273i128);
    } else if k == 103 {
        assert(ZETAS@[103] == -3316505856631513396i128);
    } else if k == 104 {
        assert(ZETAS@[104] == 141308948101872457i128);
    } else if k == 105 {
        assert(ZETAS@[105] == 4037194506457022523i128);
    } else if k == 106 {
        assert(ZETAS@[106] == 5142836145630396386i128);
    } else if k == 107 {
        assert(ZETAS@[107] == -1159634373834138383i128);
    } else if k == 108 {
        assert(ZETAS@[108] == 1103814451303893121i128);
    } else if k == 109 {
        assert(ZETAS@[109] == -5107084311639924838i128);
    } else if k == 110 {
        assert(ZETAS@[110] == 2580699593472304997i128);
    } else if k == 111 {
        assert(ZETAS@[111] == -4201594893426059755i128);
    } else if k == 112 {
        assert(ZETAS@[112] == 4176366008162680626i128);
    } else if k == 113 {
        assert(ZETAS@[113] == 2749976035880187188i128);
    } else if k == 114 {
        assert(ZETAS@[114] == -3221175483079064863i128);
    } else if k == 115 {
        assert(ZETAS@[115] == 3864261972939933101i128);
    } else if k == 116 {
        assert(ZETAS@[116] == 4915914795301596551i128);
    } else if k == 117 {
        assert(ZETAS@[117] == 4691404023415064847i128);
    } else if k == 118 {
        assert(ZETAS@[118] == -2009294716216636780i128);
    } else if k == 119 {
        assert(ZETAS@[119] == -6666406931716436834i128);
    } else if k == 120 {
        assert(ZETAS@[120] == 75700364447871879i128);
    } else if k == 121 {
        assert(ZETAS@[121] == -6382679092994900854i128);
    } else if k == 122 {
        assert(ZETAS@[122] == -1821567887061005068i128);
    } else if k == 123 {
        assert(ZETAS@[123] == 6856719230399980910i128);
    } else if k == 124 {
        assert(ZETAS@[124] == 1577653652171756991i128);
    } else if k == 125 {
        assert(ZETAS@[125] == 393060495186118832i128);
    } else if k == 126 {
        assert(ZETAS@[126] == -701047631524101030i128);
    } else if k == 127 {
        assert(ZETAS@[127] == -313778452114125462i128);
    }
}

/// The zetas that a forward and the matching inverse layer use on the same
/// block multiply to -2^128 modulo q.
pub proof fn lemma_zeta_pair(len: int, b: int)
    requires
        is_layer_len(len),
        0 <= b < 128int / len,
    ensures
        (zeta_spec(128int / len + b) * zeta_spec(256int / len - 1 - b) * mont_r_inv() * mont_r_inv())
            % q() == q() - 1,
{
    reveal(zeta_spec);
    let h = 128int / len;
    lemma_len_div(len);
    let k = h + b;
    assert(256int / len - 1 - b == 3 * h - 1 - k);
    assert(1 <= k < 128);
    if k == 1 {
        assert(ZETAS@[1] == 6775496934782943343i128);
        assert(ZETAS@[1] == 6775496934782943343i128);
        assert((6775496934782943343int * 6775496934782943343int * 1271475462236046151int * 1271475462236046151int) % 13835058055275898369int == 13835058055275898368int);
    } else if k == 2 {
        assert(ZETAS@[2] == -2009471431703899311i128);
        assert(ZETAS@[3] == -1328232688688911287i128);
        assert((11825586623571999058int * 12506825366586987082int * 1271475462236046151int * 1271475462236046151int) % 13835058055275898369int == 13835058055275898368int);
    } else if k == 3 {
        assert(ZETAS@[3] == -1328232688688911287i128);
        assert(ZETAS@[2] == -2009471431703899311i128);
        assert((12506825366586987082int * 11825586623571999058int * 1271475462236046151int * 1271475462236046151int) % 13835058055275898369int == 13835058055275898368int);
    } else if k == 4 {
        assert(ZETAS@[4] == -1002745027200374681i128);
        assert(ZETAS@[7] == 319924368957496599i128);
        assert((12832313028075523688int * 319924368957496599int * 1271475462236046151int * 1271475462236046151int) % 13835058055275898369int == 13835058055275898368int);
    } else if k == 5 {
        assert(ZETAS@[5] == 4065724602514105411i128);
        assert(ZETAS@[6] == 2919437507106638680i128);
        assert((4065724602514105411int * 2919437507106638680int * 1271475462236046151int * 1271475462236046151int) % 13835058055275898369int == 13835058055275898368int);
    } else if k == 6 {
        assert(ZETAS@[6] == 2919437507106638680i128);
        assert(ZETAS@[5] == 4065724602514105411i128);
        assert((2919437507106638680int * 4065724602514105411int * 1271475462236046151int * 1271475462236046151int) % 13835058055275898369int == 13835058055275898368int);
    } else if k == 7 {
        assert(ZETAS@[7] == 319924368957496599i128);
        assert(ZETAS@[4] == -1002745027200374681i128);
        assert((319924368957496599int * 12832313028075523688int * 1271475462236046151int * 1271475462236046151int) % 13835058055275898369int == 13835058055275898368int);
    } else if k == 8 {
        assert(ZETAS@[8] == -4937142386123851074i128);
        assert(ZETAS@[15] == -6059951808049000894i128);
        assert((8897915669152047295int * 7775106247226897475int * 1271475462236046151int * 1271475462236046151int) % 13835058055275898369int == 13835058055275898368int);
    } else if k == 9 {
        assert(ZETAS@[9] == -2046042962112950785i128);
        assert(ZETAS@[14] == -4960492513664852441i128);
        assert((11789015093162947584int * 8874565541611045928int * 1271475462236046151int * 1271475462236046151int) % 13835058055275898369int == 13835058055275898368int);
    } else if k == 10 {
        assert(ZETAS@[10] == -5404690735978538842i128);
        assert(ZETAS@[13] == 6129907493117356186i128);
        assert((8430367319297359527int * 6129907493117356186int * 1271475462236046151int * 1271475462236046151int) % 13835058055275898369int == 13835058055275898368int);
    } else if k == 11 {
        assert(ZETAS@[11] == -6606314814373324632i128);
        assert(ZETAS@[12] == -270228248844215435i128);
        assert((7228743240902573737int * 13564829806431682934int * 1271475462236046151int * 1271475462236046151int) % 13835058055275898369int == 13835058055275898368int);
    } else if k == 12 {
        assert(ZETAS@[12] == -270228248844215435i128);
        assert(ZETAS@[11] == -6606314814373324632i128);
        assert((13564829806431682934int * 7228743240902573737int * 1271475462236046151int * 1271475462236046151int) % 13835058055275898369int == 13835058055275898368int);
    } else if k == 13 {
        assert(ZETAS@[13] == 6129907493117356186i128);
        assert(ZETAS@[10] == -5404690735978538842i128);
        assert((6129907493117356186int * 8430367319297359527int * 1271475462236046151int * 1271475462236046151int) % 13835058055275898369int == 13835058055275898368int);
    } else if k == 14 {
        assert(ZETAS@[14] == -4960492513664852441i128);
        assert(ZETAS@[9] == -2046042962112950785i128);
        assert((8874565541611045928int * 11789015093162947584int * 1271475462236046151int * 1271475462236046151int) % 13835058055275898369int == 13835058055275898368int);
    } else if k == 15 {
        assert(ZETAS@[15] == -6059951808049000894i128);
        assert(ZETAS@[8] == -4937142386123851074i128);
        assert((7775106247226897475int * 8897915669152047295int * 1271475462236046151int * 1271475462236046151int) % 13835058055275898369int == 13835058055275898368int);
    } else if k == 16 {
        assert(ZETAS@[16] == 3669995908980165229i128);
        assert(ZETAS@[31] == 262987071806669675i128);
        assert((3669995908980165229int * 262987071806669675int * 1271475462236046151int * 1271475462236046151int) % 13835058055275898369int == 13835058055275898368int);
    } else if k == 17 {
        assert(ZETAS@[17] == 4471194529861214218i128);
        assert(ZETAS@[30] == -5891018715525901177i128);
        assert((4471194529861214218int * 7944039339749997192int * 1271475462236046151int * 1271475462236046151int) % 13835058055275898369int == 13835058055275898368int);
    } else if k == 18 {
        assert(ZETAS@[18] == -1275871039369993539i128);
        assert(ZETAS@[29] == -2069297829992143500i128);
        assert((12559187015905904830int * 11765760225283754869int * 1271475462236046151int * 1271475462236046151int) % 13835058055275898369int == 13835058055275898368int);
    } else if k == 19 {
        assert(ZETAS@[19] == 4562826861878496655i128);
        assert(ZETAS@[28] == -3410546557051774221i128);
        assert((4562826861878496655int * 10424511498224124148int * 1271475462236046151int * 1271475462236046151int) % 13835058055275898369int == 13835058055275898368int);
    } else if k == 20 {
        assert(ZETAS@[20] == 2822996399665595795i128);
        assert(ZETAS@[27] == -6806000428358751151i128);
        assert((2822996399665595795int * 7029057626917147218int * 1271475462236046151int * 1271475462236046151int) % 13835058055275898369int == 13835058055275898368int);
    } else if k == 21 {
        assert(ZETAS@[21] == 5082037695556247343i128);
        assert(ZETAS@[26] == 6876880878865852470i128);
        assert((5082037695556247343int * 6876880878865852470int * 1271475462236046151int * 1271475462236046151int) % 13835058055275898369int == 13835058055275898368int);
    } else if k == 22 {
        assert(ZETAS@[22] == 745738841633068290i128);
        assert(ZETAS@[25] == 4065489346010616149i128);
        assert((745738841633068290int * 4065489346010616149int * 1271475462236046151int * 1271475462236046151int) % 13835058055275898369int == 13835058055275898368int);
    } else if k == 23 {
        assert(ZETAS@[23] == 633169733644942350i128);
        assert(ZETAS@[24] == 3458111977077273059i128);
        assert((633169733644942350int * 3458111977077273059int * 1271475462236046151int * 1271475462236046151int) % 13835058055275898369int == 13835058055275898368int);
    } else if k == 24 {
        assert(ZETAS@[24] == 3458111977077273059i128);
        assert(ZETAS@[23] == 633169733644942350i128);
        assert((3458111977077273059int * 633169733644942350int * 1271475462236046151int * 1271475462236046151int) % 13835058055275898369int == 13835058055275898368int);
    } else if k == 25 {
        assert(ZETAS@[25] == 4065489346010616149i128);
        assert(ZETAS@[22] == 745738841633068290i128);
        assert((4065489346010616149int * 745738841633068290int * 1271475462236046151int * 1271475462236046151int) % 13835058055275898369int == 13835058055275898368int);
    } else if k == 26 {
        assert(ZETAS@[26] == 6876880878865852470i128);
        assert(ZETAS@[21] == 5082037695556247343i128);
        assert((6876880878865852470int * 5082037695556247343int * 1271475462236046151int * 1271475462236046151int) % 13835058055275898369int == 13835058055275898368int);
    } else if k == 27 {
        assert(ZETAS@[27] == -6806000428358751151i128);
        assert(ZETAS@[20] == 2822996399665595795i128);
        assert((7029057626917147218int * 2822996399665595795int * 1271475462236046151int * 1271475462236046151int) % 13835058055275898369int == 13835058055275898368int);
    } else if k == 28 {
        assert(ZETAS@[28] == -3410546557051774221i128);
        assert(ZETAS@[19] == 4562826861878496655i128);
        assert((10424511498224124148int * 4562826861878496655int * 1271475462236046151int * 1271475462236046151int) % 13835058055275898369int == 13835058055275898368int);
    } else if k == 29 {
        assert(ZETAS@[29] == -2069297829992143500i128);
        assert(ZETAS@[18] == -1275871039369993539i128);
        assert((11765760225283754869int * 12559187015905904830int * 1271475462236046151int * 1271475462236046151int) % 13835058055275898369int == 13835058055275898368int);
    } else if k == 30 {
        assert(ZETAS@[30] == -5891018715525901177i128);
        assert(ZETAS@[17] == 4471194529861214218i128);
        assert((7944039339749997192int * 4471194529861214218int * 1271475462236046151int * 1271475462236046151int) % 13835058055275898369int == 13835058055275898368int);
    } else if k == 31 {
        assert(ZETAS@[31] == 262987071806669675i128);
        assert(ZETAS@[16] == 3669995908980165229i128);
        assert((262987071806669675int * 3669995908980165229int * 1271475462236046151int * 1271475462236046151int) % 13835058055275898369int == 13835058055275898368int);
    } else if k == 32 {
        assert(ZETAS@[32] == -4209832979942217088i128);
        assert(ZETAS@[63] == -762779014219402480i128);
        assert((9625225075333681281int * 13072279041056495889int * 1271475462236046151int * 1271475462236046151int) % 13835058055275898369int == 13835058055275898368int);
    } else if k == 33 {
        assert(ZETAS@[33] == -4853399977178133286i128);
        assert(ZETAS@[62] == 3031822331272221894i128);
        assert((8981658078097765083int * 3031822331272221894int * 1271475462236046151int * 1271475462236046151int) % 13835058055275898369int == 13835058055275898368int);
    } else if k == 34 {
        assert(ZETAS@[34] == -4469635722433500072i128);
        assert(ZETAS@[61] == 6353563406977357718i128);
        assert((9365422332842398297int * 6353563406977357718int * 1271475462236046151int * 1271475462236046151int) % 13835058055275898369int == 13835058055275898368int);
    } else if k == 35 {
        assert(ZETAS@[35] == -2719828446725532201i128);
        assert(ZETAS@[60] == -44711985415143478i128);
        assert((11115229608550366168int * 13790346069860754891int * 1271475462236046151int * 1271475462236046151int) % 13835058055275898369int == 13835058055275898368int);
    } else if k == 36 {
        assert(ZETAS@[36] == 2932733688436728947i128);
        assert(ZETAS@[59] == -2656845851757036308i128);
        assert((2932733688436728947int * 11178212203518862061int * 1271475462236046151int * 1271475462236046151int) % 13835058055275898369int == 13835058055275898368int);
    } else if k == 37 {
        assert(ZETAS@[37] == 3225024695543939740i128);
        assert(ZETAS@[58] == -273191801007909499i128);
        assert((3225024695543939740int * 13561866254267988870int * 1271475462236046151int * 1271475462236046151int) % 13835058055275898369int == 13835058055275898368int);
    } else if k == 38 {
        assert(ZETAS@[38] == -437831722710114117i128);
        assert(ZETAS@[57] == 2040836476977888315i128);
        assert((13397226332565784252int * 2040836476977888315int * 1271475462236046151int * 1271475462236046151int) % 13835058055275898369int == 13835058055275898368int);
    } else if k == 39 {
        assert(ZETAS@[39] == 4689031949574032495i128);
        assert(ZETAS@[56] == -338581298071975759i128);
        assert((4689031949574032495int * 13496476757203922610int * 1271475462236046151int * 1271475462236046151int) % 13835058055275898369int == 13835058055275898368int);
    } else if k == 40 {
        assert(ZETAS@[40] == -460795627035938008i128);
        assert(ZETAS@[55] == 6674403165336970061i128);
        assert((13374262428239960361int * 6674403165336970061int * 1271475462236046151int * 1271475462236046151int) % 13835058055275898369int == 13835058055275898368int);
    } else if k == 41 {
        assert(ZETAS@[41] == -2729900186852309429i128);
        assert(ZETAS@[54] == 4609624266595818327i128);
        assert((11105157868423588940int * 4609624266595818327int * 1271475462236046151int * 1271475462236046151int) % 13835058055275898369int == 13835058055275898368int);
    } else if k == 42 {
        assert(ZETAS@[42] == 4958831375230657507i128);
        assert(ZETAS@[53] == 1462662603041285163i128);
        assert((4958831375230657507int * 1462662603041285163int * 1271475462236046151int * 1271475462236046151int) % 13835058055275898369int == 13835058055275898368int);
    } else if k == 43 {
        assert(ZETAS@[43] == 4314914257997048595i128);
        assert(ZETAS@[52] == -3044589325454650383i128);
        assert((4314914257997048595int * 10790468729821247986int * 1271475462236046151int * 1271475462236046151int) % 13835058055275898369int == 13835058055275898368int);
    } else if k == 44 {
        assert(ZETAS@[44] == 2689539792066314476i128);
        assert(ZETAS@[51] == 2069716819461342925i128);
        assert((2689539792066314476int * 2069716819461342925int * 1271475462236046151int * 1271475462236046151int) % 13835058055275898369int == 13835058055275898368int);
    } else if k == 45 {
        assert(ZETAS@[45] == 1556876955611316366i128);
        assert(ZETAS@[50] == 156650692426433285i128);
        assert((1556876955611316366int * 156650692426433285int * 1271475462236046151int * 1271475462236046151int) % 13835058055275898369int == 13835058055275898368int);
    } else if k == 46 {
        assert(ZETAS@[46] == 4127901432139452371i128);
        assert(ZETAS@[49] == -4681664571588944144i128);
        assert((4127901432139452371int * 9153393483686954225int * 1271475462236046151int * 1271475462236046151int) % 13835058055275898369int == 13835058055275898368int);
    } else if k == 47 {
        assert(ZETAS@[47] == 4250483512101983420i128);
        assert(ZETAS@[48] == -6256633931762637093i128);
        assert((4250483512101983420int * 7578424123513261276int * 1271475462236046151int * 1271475462236046151int) % 13835058055275898369int == 13835058055275898368int);
    } else if k == 48 {
        assert(ZETAS@[48] == -6256633931762637093i128);
        assert(ZETAS@[47] == 4250483512101983420i128);
        assert((7578424123513261276int * 4250483512101983420int * 1271475462236046151int * 1271475462236046151int) % 13835058055275898369int == 13835058055275898368int);
    } else if k == 49 {
        assert(ZETAS@[49] == -4681664571588944144i128);
        assert(ZETAS@[46] == 4127901432139452371i128);
        assert((9153393483686954225int * 4127901432139452371int * 1271475462236046151int * 1271475462236046151int) % 13835058055275898369int == 13835058055275898368int);
    } else if k == 50 {
        assert(ZETAS@[50] == 156650692426433285i128);
        assert(ZETAS@[45] == 1556876955611316366i128);
        assert((156650692426433285int * 1556876955611316366int * 1271475462236046151int * 1271475462236046151int) % 13835058055275898369int == 13835058055275898368int);
    } else if k == 51 {
        assert(ZETAS@[51] == 2069716819461342925i128);
        assert(ZETAS@[44] == 2689539792066314476i128);
        assert((2069716819461342925int * 2689539792066314476int * 1271475462236046151int * 1271475462236046151int) % 13835058055275898369int == 13835058055275898368int);
    } else if k == 52 {
        assert(ZETAS@[52] == -3044589325454650383i128);
        assert(ZETAS@[43] == 4314914257997048595i128);
        assert((10790468729821247986int * 4314914257997048595int * 1271475462236046151int * 1271475462236046151int) % 13835058055275898369int == 13835058055275898368int);
    } else if k == 53 {
        assert(ZETAS@[53] == 1462662603041285163i128);
        assert(ZETAS@[42] == 4958831375230657507i128);
        assert((1462662603041285163int * 4958831375230657507int * 1271475462236046151int * 1271475462236046151int) % 13835058055275898369int == 13835058055275898368int);
    } else if k == 54 {
        assert(ZETAS@[54] == 4609624266595818327i128);
        assert(ZETAS@[41] == -2729900186852309429i128);
        assert((4609624266595818327int * 11105157868423588940int * 1271475462236046151int * 1271475462236046151int) % 13835058055275898369int == 13835058055275898368int);
    } else if k == 55 {
        assert(ZETAS@[55] == 6674403165336970061i128);
        assert(ZETAS@[40] == -460795627035938008i128);
        assert((6674403165336970061int * 13374262428239960361int * 1271475462236046151int * 1271475462236046151int) % 13835058055275898369int == 13835058055275898368int);
    } else if k == 56 {
        assert(ZETAS@[56] == -338581298071975759i128);
        assert(ZETAS@[39] == 4689031949574032495i128);
        assert((13496476757203922610int * 4689031949574032495int * 1271475462236046151int * 1271475462236046151int) % 13835058055275898369int == 13835058055275898368int);
    } else if k == 57 {
        assert(ZETAS@[57] == 2040836476977888315i128);
        assert(ZETAS@[38] == -437831722710114117i128);
        assert((2040836476977888315int * 13397226332565784252int * 1271475462236046151int * 1271475462236046151int) % 13835058055275898369int == 13835058055275898368int);
    } else if k == 58 {
        assert(ZETAS@[58] == -273191801007909499i128);
        assert(ZETAS@[37] == 3225024695543939740i128);
        assert((13561866254267988870int * 3225024695543939740int * 1271475462236046151int * 1271475462236046151int) % 13835058055275898369int == 13835058055275898368int);
    } else if k == 59 {
        assert(ZETAS@[59] == -2656845851757036308i128);
        assert(ZETAS@[36] == 2932733688436728947i128);
        assert((11178212203518862061int * 2932733688436728947int * 1271475462236046151int * 1271475462236046151int) % 13835058055275898369int == 13835058055275898368int);
    } else if k == 60 {
        assert(ZETAS@[60] == -44711985415143478i128);
        assert(ZETAS@[35] == -2719828446725532201i128);
        assert((13790346069860754891int * 11115229608550366168int * 1271475462236046151int * 1271475462236046151int) % 13835058055275898369int == 13835058055275898368int);
    } else if k == 61 {
        assert(ZETAS@[61] == 6353563406977357718i128);
        assert(ZETAS@[34] == -4469635722433500072i128);
        assert((6353563406977357718int * 9365422332842398297int * 1271475462236046151int * 1271475462236046151int) % 13835058055275898369int == 13835058055275898368int);
    } else if k == 62 {
        assert(ZETAS@[62] == 3031822331272221894i128);
        assert(ZETAS@[33] == -4853399977178133286i128);
        assert((3031822331272221894int * 8981658078097765083int * 1271475462236046151int * 1271475462236046151int) % 13835058055275898369int == 13835058055275898368int);
    } else if k == 63 {
        assert(ZETAS@[63] == -762779014219402480i128);
        assert(ZETAS@[32] == -4209832979942217088i128);
        assert((13072279041056495889int * 9625225075333681281int * 1271475462236046151int * 1271475462236046151int) % 13835058055275898369int == 13835058055275898368int);
    } else if k == 64 {
        assert(ZETAS@[64] == -2372743451200819209i128);
        assert(ZETAS@[127] == -313778452114125462i128);
        assert((11462314604075079160int * 13521279603161772907int * 1271475462236046151int * 1271475462236046151int) % 13835058055275898369int == 13835058055275898368int);
    } else if k == 65 {
        assert(ZETAS@[65] == -4479457842878286898i128);
        assert(ZETAS@[126] == -701047631524101030i128);
        assert((9355600212397611471int * 13134010423751797339int * 1271475462236046151int * 1271475462236046151int) % 13835058055275898369int == 13835058055275898368int);
    } else if k == 66 {
        assert(ZETAS@[66] == -5808516804873542315i128);
        assert(ZETAS@[125] == 393060495186118832i128);
        assert((8026541250402356054int * 393060495186118832int * 1271475462236046151int * 1271475462236046151int) % 13835058055275898369int == 13835058055275898368int);
    } else if k == 67 {
        assert(ZETAS@[67] == 5202493321066001563i128);
        assert(ZETAS@[124] == 1577653652171756991i128);
        assert((5202493321066001563int * 1577653652171756991int * 1271475462236046151int * 1271475462236046151int) % 13835058055275898369int == 13835058055275898368int);
    } else if k == 68 {
        assert(ZETAS@[68] == 2664425064816597460i128);
        assert(ZETAS@[123] == 6856719230399980910i128);
        assert((2664425064816597460int * 6856719230399980910int * 1271475462236046151int * 1271475462236046151int) % 13835058055275898369int == 13835058055275898368int);
    } else if k == 69 {
        assert(ZETAS@[69] == 4127525199519907716i128);
        assert(ZETAS@[122] == -1821567887061005068i128);
        assert((4127525199519907716int * 12013490168214893301int * 1271475462236046151int * 1271475462236046151int) % 13835058055275898369int == 13835058055275898368int);
    } else if k == 70 {
        assert(ZETAS@[70] == -5367643274131333069i128);
        assert(ZETAS@[121] == -6382679092994900854i128);
        assert((8467414781144565300int * 7452378962280997515int * 1271475462236046151int * 1271475462236046151int) % 13835058055275898369int == 13835058055275898368int);
    } else if k == 71 {
        assert(ZETAS@[71] == -2101288124888178948i128);
        assert(ZETAS@[120] == 75700364447871879i128);
        assert((11733769930387719421int * 75700364447871879int * 1271475462236046151int * 1271475462236046151int) % 13835058055275898369int == 13835058055275898368int);
    } else if k == 72 {
        assert(ZETAS@[72] == -2164111735454328589i128);
        assert(ZETAS@[119] == -6666406931716436834i128);
        assert((11670946319821569780int * 7168651123559461535int * 1271475462236046151int * 1271475462236046151int) % 13835058055275898369int == 13835058055275898368int);
    } else if k == 73 {
        assert(ZETAS@[73] == 3426632667190719615i128);
        assert(ZETAS@[118] == -2009294716216636780i128);
        assert((3426632667190719615int * 11825763339059261589int * 1271475462236046151int * 1271475462236046151int) % 13835058055275898369int == 13835058055275898368int);
    } else if k == 74 {
        assert(ZETAS@[74] == -1449132584730080406i128);
        assert(ZETAS@[117] == 4691404023415064847i128);
        assert((12385925470545817963int * 4691404023415064847int * 1271475462236046151int * 1271475462236046151int) % 13835058055275898369int == 13835058055275898368int);
    } else if k == 75 {
        assert(ZETAS@[75] == -4033040700149638753i128);
        assert(ZETAS@[116] == 4915914795301596551i128);
        assert((9802017355126259616int * 4915914795301596551int * 1271475462236046151int * 1271475462236046151int) % 13835058055275898369int == 13835058055275898368int);
    } else if k == 76 {
        assert(ZETAS@[76] == -4568336411430482635i128);
        assert(ZETAS@[115] == 3864261972939933101i128);
        assert((9266721643845415734int * 3864261972939933101int * 1271475462236046151int * 1271475462236046151int) % 13835058055275898369int == 13835058055275898368int);
    } else if k == 77 {
        assert(ZETAS@[77] == 5475667053731798313i128);
        assert(ZETAS@[114] == -3221175483079064863i128);
        assert((5475667053731798313int * 10613882572196833506int * 1271475462236046151int * 1271475462236046151int) % 13835058055275898369int == 13835058055275898368int);
    } else if k == 78 {
        assert(ZETAS@[78] == 4835718490655127805i128);
        assert(ZETAS@[113] == 2749976035880187188i128);
        assert((4835718490655127805int * 2749976035880187188int * 1271475462236046151int * 1271475462236046151int) % 13835058055275898369int == 13835058055275898368int);
    } else if k == 79 {
        assert(ZETAS@[79] == -3262171357217770981i128);
        assert(ZETAS@[112] == 4176366008162680626i128);
        assert((10572886698058127388int * 4176366008162680626int * 1271475462236046151int * 1271475462236046151int) % 13835058055275898369int == 13835058055275898368int);
    } else if k == 80 {
        assert(ZETAS@[80] == -721708503450034379i128);
        assert(ZETAS@[111] == -4201594893426059755i128);
        assert((13113349551825863990int * 9633463161849838614int * 1271475462236046151int * 1271475462236046151int) % 13835058055275898369int == 13835058055275898368int);
    } else if k == 81 {
        assert(ZETAS@[81] == -442230070471120890i128);
        assert(ZETAS@[110] == 2580699593472304997i128);
        assert((13392827984804777479int * 2580699593472304997int * 1271475462236046151int * 1271475462236046151int) % 13835058055275898369int == 13835058055275898368int);
    } else if k == 82 {
        assert(ZETAS@[82] == 6488316196029542432i128);
        assert(ZETAS@[109] == -5107084311639924838i128);
        assert((6488316196029542432int * 8727973743635973531int * 1271475462236046151int * 1271475462236046151int) % 13835058055275898369int == 13835058055275898368int);
    } else if k == 83 {
        assert(ZETAS@[83] == 3668928761566150171i128);
        assert(ZETAS@[108] == 1103814451303893121i128);
        assert((3668928761566150171int * 1103814451303893121int * 1271475462236046151int * 1271475462236046151int) % 13835058055275898369int == 13835058055275898368int);
    } else if k == 84 {
        assert(ZETAS@[84] == 1879062554842413453i128);
        assert(ZETAS@[107] == -1159634373834138383i128);
        assert((1879062554842413453int * 12675423681441759986int * 1271475462236046151int * 1271475462236046151int) % 13835058055275898369int == 13835058055275898368int);
    } else if k == 85 {
        assert(ZETAS@[85] == 6622523374060929081i128);
        assert(ZETAS@[106] == 5142836145630396386i128);
        assert((6622523374060929081int * 5142836145630396386int * 1271475462236046151int * 1271475462236046151int) % 13835058055275898369int == 13835058055275898368int);
    } else if k == 86 {
        assert(ZETAS@[86] == 4497823662372655678i128);
        assert(ZETAS@[105] == 4037194506457022523i128);
        assert((4497823662372655678int * 4037194506457022523int * 1271475462236046151int * 1271475462236046151int) % 13835058055275898369int == 13835058055275898368int);
    } else if k == 87 {
        assert(ZETAS@[87] == 2181189622346755299i128);
        assert(ZETAS@[104] == 141308948101872457i128);
        assert((2181189622346755299int * 141308948101872457int * 1271475462236046151int * 1271475462236046151int) % 13835058055275898369int == 13835058055275898368int);
    } else if k == 88 {
        assert(ZETAS@[88] == 3343598498793886526i128);
        assert(ZETAS@[103] == -3316505856631513396i128);
        assert((3343598498793886526int * 10518552198644384973int * 1271475462236046151int * 1271475462236046151int) % 13835058055275898369int == 13835058055275898368int);
    } else if k == 89 {
        assert(ZETAS@[89] == -5832667444522673062i128);
        assert(ZETAS@[102] == 2577497029180678273i128);
        assert((8002390610753225307int * 2577497029180678273int * 1271475462236046151int * 1271475462236046151int) % 13835058055275898369int == 13835058055275898368int);
    } else if k == 90 {
        assert(ZETAS@[90] == -5769155328229301819i128);
        assert(ZETAS@[101] == -3831832212124189303i128);
        assert((8065902727046596550int * 10003225843151709066int * 1271475462236046151int * 1271475462236046151int) % 13835058055275898369int == 13835058055275898368int);
    } else if k == 91 {
        assert(ZETAS@[91] == -4683268811401307848i128);
        assert(ZETAS@[100] == 2263811077158641856i128);
        assert((9151789243874590521int * 2263811077158641856int * 1271475462236046151int * 1271475462236046151int) % 13835058055275898369int == 13835058055275898368int);
    } else if k == 92 {
        assert(ZETAS@[92] == -432338560991021804i128);
        assert(ZETAS@[99] == -4854416514682753834i128);
        assert((13402719494284876565int * 8980641540593144535int * 1271475462236046151int * 1271475462236046151int) % 13835058055275898369int == 13835058055275898368int);
    } else if k == 93 {
        assert(ZETAS@[93] == -3488522677917641439i128);
        assert(ZETAS@[98] == 6864728106536110716i128);
        assert((10346535377358256930int * 6864728106536110716int * 1271475462236046151int * 1271475462236046151int) % 13835058055275898369int == 13835058055275898368int);
    } else if k == 94 {
        assert(ZETAS@[94] == -1748976110565841208i128);
        assert(ZETAS@[97] == 6678619682012113901i128);
        assert((12086081944710057161int * 6678619682012113901int * 1271475462236046151int * 1271475462236046151int) % 13835058055275898369int == 13835058055275898368int);
    } else if k == 95 {
        assert(ZETAS@[95] == 1931908146623244118i128);
        assert(ZETAS@[96] == 101008600497379161i128);
        assert((1931908146623244118int * 101008600497379161int * 1271475462236046151int * 1271475462236046151int) % 13835058055275898369int == 13835058055275898368int);
    } else if k == 96 {
        assert(ZETAS@[96] == 101008600497379161i128);
        assert(ZETAS@[95] == 1931908146623244118i128);
        assert((101008600497379161int * 1931908146623244118int * 1271475462236046151int * 1271475462236046151int) % 13835058055275898369int == 13835058055275898368int);
    } else if k == 97 {
        assert(ZETAS@[97] == 6678619682012113901i128);
        assert(ZETAS@[94] == -1748976110565841208i128);
        assert((6678619682012113901int * 12086081944710057161int * 1271475462236046151int * 1271475462236046151int) % 13835058055275898369int == 13835058055275898368int);
    } else if k == 98 {
        assert(ZETAS@[98] == 6864728106536110716i128);
        assert(ZETAS@[93] == -3488522677917641439i128);
        assert((6864728106536110716int * 10346535377358256930int * 1271475462236046151int * 1271475462236046151int) % 13835058055275898369int == 13835058055275898368int);
    } else if k == 99 {
        assert(ZETAS@[99] == -4854416514682753834i128);
        assert(ZETAS@[92] == -432338560991021804i128);
        assert((8980641540593144535int * 13402719494284876565int * 1271475462236046151int * 1271475462236046151int) % 13835058055275898369int == 13835058055275898368int);
    } else if k == 100 {
        assert(ZETAS@[100] == 2263811077158641856i128);
        assert(ZETAS@[91] == -4683268811401307848i128);
        assert((2263811077158641856int * 9151789243874590521int * 1271475462236046151int * 1271475462236046151int) % 13835058055275898369int == 13835058055275898368int);
    } else if k == 101 {
        assert(ZETAS@[101] == -3831832212124189303i128);
        assert(ZETAS@[90] == -5769155328229301819i128);
        assert((10003225843151709066int * 8065902727046596550int * 1271475462236046151int * 1271475462236046151int) % 13835058055275898369int == 13835058055275898368int);
    } else if k == 102 {
        assert(ZETAS@[102] == 2577497029180678273i128);
        assert(ZETAS@[89] == -5832667444522673062i128);
        assert((2577497029180678273int * 8002390610753225307int * 1271475462236046151int * 1271475462236046151int) % 13835058055275898369int == 13835058055275898368int);
    } else if k == 103 {
        assert(ZETAS@[103] == -3316505856631513396i128);
        assert(ZETAS@[88] == 3343598498793886526i128);
        assert((10518552198644384973int * 3343598498793886526int * 1271475462236046151int * 1271475462236046151int) % 13835058055275898369int == 13835058055275898368int);
    } else if k == 104 {
        assert(ZETAS@[104] == 141308948101872457i128);
        assert(ZETAS@[87] == 2181189622346755299i128);
        assert((141308948101872457int * 2181189622346755299int * 1271475462236046151int * 1271475462236046151int) % 13835058055275898369int == 13835058055275898368int);
    } else if k == 105 {
        assert(ZETAS@[105] == 4037194506457022523i128);
        assert(ZETAS@[86] == 4497823662372655678i128);
        assert((4037194506457022523int * 4497823662372655678int * 1271475462236046151int * 1271475462236046151int) % 13835058055275898369int == 13835058055275898368int);
    } else if k == 106 {
        assert(ZETAS@[106] == 5142836145630396386i128);
        assert(ZETAS@[85] == 6622523374060929081i128);
        assert((5142836145630396386int * 6622523374060929081int * 1271475462236046151int * 1271475462236046151int) % 13835058055275898369int == 13835058055275898368int);
    } else if k == 107 {
        assert(ZETAS@[107] == -1159634373834138383i128);
        assert(ZETAS@[84] == 1879062554842413453i128);
        assert((12675423681441759986int * 1879062554842413453int * 1271475462236046151int * 1271475462236046151int) % 13835058055275898369int == 13835058055275898368int);
    } else if k == 108 {
        assert(ZETAS@[108] == 1103814451303893121i128);
        assert(ZETAS@[83] == 3668928761566150171i128);
        assert((1103814451303893121int * 3668928761566150171int * 1271475462236046151int * 1271475462236046151int) % 13835058055275898369int == 13835058055275898368int);
    } else if k == 109 {
        assert(ZETAS@[109] == -5107084311639924838i128);
        assert(ZETAS@[82] == 6488316196029542432i128);
        assert((8727973743635973531int * 6488316196029542432int * 1271475462236046151int * 1271475462236046151int) % 13835058055275898369int == 13835058055275898368int);
    } else if k == 110 {
        assert(ZETAS@[110] == 2580699593472304997i128);
        assert(ZETAS@[81] == -442230070471120890i128);
        assert((2580699593472304997int * 13392827984804777479int * 1271475462236046151int * 1271475462236046151int) % 13835058055275898369int == 13835058055275898368int);
    } else if k == 111 {
        assert(ZETAS@[111] == -4201594893426059755i128);
        assert(ZETAS@[80] == -721708503450034379i128);
        assert((9633463161849838614int * 13113349551825863990int * 1271475462236046151int * 1271475462236046151int) % 13835058055275898369int == 13835058055275898368int);
    } else if k == 112 {
        assert(ZETAS@[112] == 4176366008162680626i128);
        assert(ZETAS@[79] == -3262171357217770981i128);
        assert((4176366008162680626int * 10572886698058127388int * 1271475462236046151int * 1271475462236046151int) % 13835058055275898369int == 13835058055275898368int);
    } else if k == 113 {
        assert(ZETAS@[113] == 2749976035880187188i128);
        assert(ZETAS@[78] == 4835718490655127805i128);
        assert((2749976035880187188int * 4835718490655127805int * 1271475462236046151int * 1271475462236046151int) % 13835058055275898369int == 13835058055275898368int);
    } else if k == 114 {
        assert(ZETAS@[114] == -3221175483079064863i128);
        assert(ZETAS@[77] == 5475667053731798313i128);
        assert((10613882572196833506int * 5475667053731798313int * 1271475462236046151int * 1271475462236046151int) % 13835058055275898369int == 13835058055275898368int);
    } else if k == 115 {
        assert(ZETAS@[115] == 3864261972939933101i128);
        assert(ZETAS@[76] == -4568336411430482635i128);
        assert((3864261972939933101int * 9266721643845415734int * 1271475462236046151int * 1271475462236046151int) % 13835058055275898369int == 13835058055275898368int);
    } else if k == 116 {
        assert(ZETAS@[116] == 4915914795301596551i128);
        assert(ZETAS@[75] == -4033040700149638753i128);
        assert((4915914795301596551int * 9802017355126259616int * 1271475462236046151int * 1271475462236046151int) % 13835058055275898369int == 13835058055275898368int);
    } else if k == 117 {
        assert(ZETAS@[117] == 4691404023415064847i128);
        assert(ZETAS@[74] == -1449132584730080406i128);
        assert((4691404023415064847int * 12385925470545817963int * 1271475462236046151int * 1271475462236046151int) % 13835058055275898369int == 13835058055275898368int);
    } else if k == 118 {
        assert(ZETAS@[118] == -2009294716216636780i128);
        assert(ZETAS@[73] == 3426632667190719615i128);
        assert((11825763339059261589int * 3426632667190719615int * 1271475462236046151int * 1271475462236046151int) % 13835058055275898369int == 13835058055275898368int);
    } else if k == 119 {
        assert(ZETAS@[119] == -6666406931716436834i128);
        assert(ZETAS@[72] == -2164111735454328589i128);
        assert((7168651123559461535int * 11670946319821569780int * 1271475462236046151int * 1271475462236046151int) % 13835058055275898369int == 13835058055275898368int);
    } else if k == 120 {
        assert(ZETAS@[120] == 75700364447871879i128);
        assert(ZETAS@[71] == -2101288124888178948i128);
        assert((75700364447871879int * 11733769930387719421int * 1271475462236046151int * 1271475462236046151int) % 13835058055275898369int == 13835058055275898368int);
    } else if k == 121 {
        assert(ZETAS@[121] == -6382679092994900854i128);
        assert(ZETAS@[70] == -5367643274131333069i128);
        assert((7452378962280997515int * 8467414781144565300int * 1271475462236046151int * 1271475462236046151int) % 13835058055275898369int == 13835058055275898368int);
    } else if k == 122 {
        assert(ZETAS@[122] == -1821567887061005068i128);
        assert(ZETAS@[69] == 4127525199519907716i128);
        assert((12013490168214893301int * 4127525199519907716int * 1271475462236046151int * 1271475462236046151int) % 13835058055275898369int == 13835058055275898368int);
    } else if k == 123 {
        assert(ZETAS@[123] == 6856719230399980910i128);
        assert(ZETAS@[68] == 2664425064816597460i128);
        assert((6856719230399980910int * 2664425064816597460int * 1271475462236046151int * 1271475462236046151int) % 13835058055275898369int == 13835058055275898368int);
    } else if k == 124 {
        assert(ZETAS@[124] == 1577653652171756991i128);
        assert(ZETAS@[67] == 5202493321066001563i128);
        assert((1577653652171756991int * 5202493321066001563int * 1271475462236046151int * 1271475462236046151int) % 13835058055275898369int == 13835058055275898368int);
    } else if k == 125 {
        assert(ZETAS@[125] == 393060495186118832i128);
        assert(ZETAS@[66] == -5808516804873542315i128);
        assert((393060495186118832int * 8026541250402356054int * 1271475462236046151int * 1271475462236046151int) % 13835058055275898369int == 13835058055275898368int);
    } else if k == 126 {
        assert(ZETAS@[126] == -701047631524101030i128);
        assert(ZETAS@[65] == -4479457842878286898i128);
        assert((13134010423751797339int * 9355600212397611471int * 1271475462236046151int * 1271475462236046151int) % 13835058055275898369int == 13835058055275898368int);
    } else if k == 127 {
        assert(ZETAS@[127] == -313778452114125462i128);
        assert(ZETAS@[64] == -2372743451200819209i128);
        assert((13521279603161772907int * 11462314604075079160int * 1271475462236046151int * 1271475462236046151int) % 13835058055275898369int == 13835058055275898368int);
    }
}

/// Position of an index inside the block of `2 len` entries that starts at `start`.
proof fn lemma_block(i: int, start: int, len: int)
    requires
        len > 0,
        start >= 0,
        (start as int) % (2 * len as int) == 0,
        start <= i < start + 2 * len,
    ensures
        i / (2 * len) == start / (2 * len),
        i % (2 * len) == i - start,
{
    lemma_fundamental_div_mod(start, 2 * len);
    let b = start / (2 * len);
    assert(start == b * (2 * len)) by { lemma_mul_is_commutative(b, 2 * len); }
    lemma_fundamental_div_mod_converse(i, 2 * len, b, i - start);
}

/// Quotients by a butterfly distance.
pub proof fn lemma_len_div(len: int)
    requires
        is_layer_len(len),
    ensures
        128int / len == 1 || 128int / len == 2 || 128int / len == 4 || 128int / len == 8
            || 128int / len == 16 || 128int / len == 32 || 128int / len == 64,
        (128int / len) * len == 128,
        256int / len == 2 * (128int / len),
        256int / (2 * len) == 128int / len,
        len / 2 == 1 || is_layer_len(len / 2),
        len / 2 >= 1 ==> 128int / (len / 2) == 2 * (128int / len),
{
    let h = 128int / len;
    let hh = if len == 2 { 64int } else if len == 4 { 32int } else if len == 8 { 16int }
        else if len == 16 { 8int } else if len == 32 { 4int } else if len == 64 { 2int } else { 1int };
    lemma_fundamental_div_mod_converse(128, len, hh, 0);
    lemma_fundamental_div_mod_converse(256, len, 2 * hh, 0);
    lemma_fundamental_div_mod_converse(256, 2 * len, hh, 0);
    if len > 2 {
        lemma_fundamental_div_mod_converse(128, len / 2, 2 * hh, 0);
    } else {
        lemma_fundamental_div_mod_converse(128, 1, 128, 0);
    }
}

/// The block after the one that starts at `start`.
proof fn lemma_next_block(start: int, len: int)
    requires
        len > 0,
        start >= 0,
        start % (2 * len) == 0,
    ensures
        (start + 2 * len) / (2 * len) == start / (2 * len) + 1,
        (start + 2 * len) % (2 * len) == 0,
{
    lemma_fundamental_div_mod(start, 2 * len);
    let b = start / (2 * len);
    assert(start + 2 * len == (b + 1) * (2 * len)) by (nonlinear_arith)
        requires start == (2 * len) * b + start % (2 * len), start % (2 * len) == 0;
    lemma_fundamental_div_mod_converse(start + 2 * len, 2 * len, b + 1, 0);
}

/// The partner of entry `i` in its butterfly at distance `len`.
pub(crate) proof fn lemma_partner(i: int, len: int)
    requires
        0 <= i < 256,
        is_layer_len(len),
    ensures
        0 <= i / (2 * len) < 128int / len,
        0 <= i % (2 * len) < 2 * len,
        i % (2 * len) < len ==> i + len < 256 && (i + len) / (2 * len) == i / (2 * len)
            && (i + len) % (2 * len) == i % (2 * len) + len,
        i % (2 * len) >= len ==> i - len >= 0 && (i - len) / (2 * len) == i / (2 * len)
            && (i - len) % (2 * len) == i % (2 * len) - len,
{
    lemma_len_div(len);
    let blk = i / (2 * len);
    lemma_fundamental_div_mod(i, 2 * len);
    lemma_mod_bound(i, 2 * len);
    assert(i == (2 * len) * blk + i % (2 * len));
    assert(0 <= blk < 128int / len) by (nonlinear_arith)
        requires 0 <= i < 256, i == (2 * len) * blk + i % (2 * len), 0 <= i % (2 * len) < 2 * len,
            (128int / len) * len == 128, len >= 2;
    assert(blk * (2 * len) + 2 * len <= 256) by (nonlinear_arith)
        requires 0 <= blk < 128int / len, (128int / len) * len == 128, len >= 2;
    if i % (2 * len) < len {
        lemma_fundamental_div_mod_converse(i + len, 2 * len, blk, i % (2 * len) + len);
    } else {
        lemma_fundamental_div_mod_converse(i - len, 2 * len, blk, i % (2 * len) - len);
    }
}

/// Montgomery multiplication of two canonical residues.
#[inline]
pub fn fqmul(a: u64, b: u64) -> (r: u64)
    requires
        (a as int) < q(),
        (b as int) < q(),
    ensures
        r as int == fqmul_spec(a as int, b as int),
        (r as int) < q(),
{
    proof {
        lemma_constants();
        assert((a as int) * (b as int) < q() * mont_r()) by (nonlinear_arith)
            requires (a as int) < q(), (b as int) < q(), q() < mont_r(), 0 <= a, 0 <= b;
        assert((a as u128) * (b as u128) < 0x1_0000_0000_0000_0000u128 * 0x1_0000_0000_0000_0000u128) by (nonlinear_arith)
            requires (a as int) < 0x1_0000_0000_0000_0000, (b as int) < 0x1_0000_0000_0000_0000;
        lemma_mod_bound((a as int) * (b as int) * mont_r_inv(), q());
    }
    let r = montgomery_reduce(a as u128 * b as u128);
    r as u64
}

/// The zeta at position `i` of the table as a canonical residue.
#[inline]
pub fn zeta_at(i: usize) -> (r: u64)
    requires
        i < 128,
    ensures
        r as int == zeta_spec(i as int),
        (r as int) < q(),
{
    proof {
        lemma_zeta(i as int);
        reveal(zeta_spec);
    }
    let z = ZETAS[i];
    if z < 0 {
        (z + KYBER_Q as i128) as u64
    } else {
        z as u64
    }
}

/// Forward number-theoretic transform of the first 256 entries of `r`, in
/// place; the remaining entries are left untouched.
pub fn ntt(r: &mut [u64])
    requires
        old(r)@.len() >= 256,
        forall|i: int| 0 <= i < 256 ==> (#[trigger] old(r)@[i] as int) < q(),
    ensures
        final(r)@.len() == old(r)@.len(),
        u64s_to_ints(final(r)@) == ntt_spec(u64s_to_ints(old(r)@)),
        forall|i: int| 0 <= i < 256 ==> (#[trigger] final(r)@[i] as int) < q(),
{
    let ghost x0 = u64s_to_ints(r@);
    let ghost n = r@.len();
    // In Kyber's layer ordering, zetas[0] (which equals MONT) is skipped; the
    // first stage starts with zetas[1].
    let mut k: usize = 1;
    let mut len: usize = KYBER_N / 2;  // 128
    let ghost mut m: nat = 0;
    while len >= 2
        invariant
            m <= 7,
            len as int == (if m < 7 { fwd_len(m as int) } else { 1 }),
            k as int == 128int / (len as int),
            r@.len() == n,
            n >= 256,
            u64s_to_ints(r@) == ntt_layers(x0, m),
            forall|i: int| 0 <= i < 256 ==> (#[trigger] r@[i] as int) < q(),
        decreases len,
    {
        let ghost y = u64s_to_ints(r@);
        let mut start: usize = 0;
        while start < KYBER_N
            invariant
                2 <= len <= 128,
                is_layer_len(len as int),
                m < 7,
                len as int == fwd_len(m as int),
                (start as int) % (2 * len as int) == 0,
                start <= 256,
                k as int == 128int / (len as int) + start as int / (2 * len as int),
                r@.len() == n,
                y.len() == n,
                n >= 256,
                forall|i: int| 0 <= i < 256 ==> 0 <= #[trigger] y[i] < q(),
                forall|i: int| 0 <= i < start ==> (#[trigger] r@[i] as int) == ntt_layer(y, len as int)[i],
                forall|i: int| start <= i < n ==> (#[trigger] r@[i] as int) == y[i],
            decreases 256 - start,
        {
            proof {
                lemma_len_div(len as int);
                assert(start + 2 * len <= 256) by (nonlinear_arith)
                    requires (start as int) % (2 * len as int) == 0, start < 256, is_layer_len(len as int);
                assert(k < 128) by (nonlinear_arith)
                    requires k as int == 128int / (len as int) + start as int / (2 * len as int),
                        start + 2 * len <= 256, is_layer_len(len as int);
            }
            let zeta = zeta_at(k);
            k = k + 1;
            let mut j = start;
            while j < start + len
                invariant
                    is_layer_len(len as int),
                    (start as int) % (2 * len as int) == 0,
                    start + 2 * len <= 256,
                    start <= j <= start + len,
                    zeta as int == zeta_spec(128int / (len as int) + start as int / (2 * len as int)),
                    (zeta as int) < q(),
                    r@.len() == n,
                    y.len() == n,
                    n >= 256,
                    forall|i: int| 0 <= i < 256 ==> 0 <= #[trigger] y[i] < q(),
                    forall|i: int| 0 <= i < start ==> (#[trigger] r@[i] as int) == ntt_layer(y, len as int)[i],
                    forall|i: int| start <= i < j ==> (#[trigger] r@[i] as int) == ntt_layer(y, len as int)[i],
                    forall|i: int| start + len <= i < j + len ==> (#[trigger] r@[i] as int) == ntt_layer(y, len as int)[i],
                    forall|i: int| j <= i < start + len ==> (#[trigger] r@[i] as int) == y[i],
                    forall|i: int| j + len <= i < n ==> (#[trigger] r@[i] as int) == y[i],
                decreases start + len - j,
            {
                proof {
                    lemma_block(j as int, start as int, len as int);
                    lemma_block(j + len, start as int, len as int);
                }
                let t = fqmul(zeta, r[j + len]);
                r[j + len] = sub_mod(r[j], t);
                r[j] = add_mod(r[j], t);
                j = j + 1;
            }
            proof {
                assert forall|i: int| 0 <= i < start + 2 * len implies (#[trigger] r@[i] as int) == ntt_layer(y, len as int)[i] by {
                    if i >= start + len {
                        assert(i < j + len);
                    }
                }
                lemma_next_block(start as int, len as int);
            }
            start = start + 2 * len;
        }
        proof {
            assert(u64s_to_ints(r@) =~= ntt_layer(y, len as int));
            lemma_len_div(len as int);
            assert(ntt_layers(x0, m + 1) == ntt_layer(ntt_layers(x0, m), fwd_len(m as int)));
            assert forall|i: int| 0 <= i < 256 implies (#[trigger] r@[i] as int) < q() by {
                lemma_mod_bound(ntt_layer(y, len as int)[i], q());
            }
        }
        len = len / 2;
        proof {
            m = m + 1;
        }
    }
    proof {
        assert(m == 7);
    }
}

/// Seven Gentleman-Sande layers on the first 256 entries of `r`.
fn invntt_butterfly(r: &mut [u64])
    requires
        old(r)@.len() >= 256,
        forall|i: int| 0 <= i < 256 ==> (#[trigger] old(r)@[i] as int) < q(),
    ensures
        final(r)@.len() == old(r)@.len(),
        u64s_to_ints(final(r)@) == invntt_layers(u64s_to_ints(old(r)@), 7),
        forall|i: int| 0 <= i < 256 ==> (#[trigger] final(r)@[i] as int) < q(),
{
    let ghost x0 = u64s_to_ints(r@);
    let ghost n = r@.len();
    let mut k: usize = 127;
    let mut len: usize = 2;
    let ghost mut m: nat = 0;
    while len <= KYBER_N / 2
        invariant
            m <= 7,
            len as int == (if m < 7 { inv_len(m as int) } else { 256 }),
            k as int == 256int / (len as int) - 1,
            r@.len() == n,
            n >= 256,
            u64s_to_ints(r@) == invntt_layers(x0, m),
            forall|i: int| 0 <= i < 256 ==> (#[trigger] r@[i] as int) < q(),
        decreases 256 - len,
    {
        let ghost y = u64s_to_ints(r@);
        proof {
            assert(is_layer_len(len as int));
            lemma_len_div(len as int);
        }
        let mut start: usize = 0;
        while start < KYBER_N
            invariant
                2 <= len <= 128,
                is_layer_len(len as int),
                m < 7,
                len as int == inv_len(m as int),
                (start as int) % (2 * len as int) == 0,
                start <= 256,
                k as int == 256int / (len as int) - 1 - start as int / (2 * len as int),
                r@.len() == n,
                y.len() == n,
                n >= 256,
                forall|i: int| 0 <= i < 256 ==> 0 <= #[trigger] y[i] < q(),
                forall|i: int| 0 <= i < start ==> (#[trigger] r@[i] as int) == invntt_layer(y, len as int)[i],
                forall|i: int| start <= i < n ==> (#[trigger] r@[i] as int) == y[i],
            decreases 256 - start,
        {
            proof {
                lemma_len_div(len as int);
                assert(start + 2 * len <= 256) by (nonlinear_arith)
                    requires (start as int) % (2 * len as int) == 0, start < 256, is_layer_len(len as int);
                assert(start as int / (2 * len as int) < 128int / (len as int)) by (nonlinear_arith)
                    requires start + 2 * len <= 256, is_layer_len(len as int),
                        (128int / (len as int)) * (len as int) == 128;
            }
            let zeta = zeta_at(k);
            k = k - 1;
            let mut j = start;
            while j < start + len
                invariant
                    is_layer_len(len as int),
                    (start as int) % (2 * len as int) == 0,
                    start + 2 * len <= 256,
                    start <= j <= start + len,
                    zeta as int == zeta_spec(256int / (len as int) - 1 - start as int / (2 * len as int)),
                    (zeta as int) < q(),
                    r@.len() == n,
                    y.len() == n,
                    n >= 256,
                    forall|i: int| 0 <= i < 256 ==> 0 <= #[trigger] y[i] < q(),
                    forall|i: int| 0 <= i < start ==> (#[trigger] r@[i] as int) == invntt_layer(y, len as int)[i],
                    forall|i: int| start <= i < j ==> (#[trigger] r@[i] as int) == invntt_layer(y, len as int)[i],
                    forall|i: int| start + len <= i < j + len ==> (#[trigger] r@[i] as int) == invntt_layer(y, len as int)[i],
                    forall|i: int| j <= i < start + len ==> (#[trigger] r@[i] as int) == y[i],
                    forall|i: int| j + len <= i < n ==> (#[trigger] r@[i] as int) == y[i],
                decreases start + len - j,
            {
                proof {
                    lemma_block(j as int, start as int, len as int);
                    lemma_block(j + len, start as int, len as int);
                }
                let t = r[j];
                r[j] = add_mod(t, r[j + len]);
                r[j + len] = sub_mod(r[j + len], t);
                r[j + len] = fqmul(zeta, r[j + len]);
                j = j + 1;
            }
            proof {
                assert forall|i: int| 0 <= i < start + 2 * len implies (#[trigger] r@[i] as int) == invntt_layer(y, len as int)[i] by {
                    if i >= start + len {
                        assert(i < j + len);
                    }
                }
                lemma_next_block(start as int, len as int);
            }
            start = start + 2 * len;
        }
        proof {
            assert(u64s_to_ints(r@) =~= invntt_layer(y, len as int));
            lemma_len_div(len as int);
            assert(invntt_layers(x0, m + 1) == invntt_layer(invntt_layers(x0, m), inv_len(m as int)));
            assert forall|i: int| 0 <= i < 256 implies (#[trigger] r@[i] as int) < q() by {
                lemma_mod_bound(invntt_layer(y, len as int)[i], q());
                if i % (2 * len as int) >= len {
                    lemma_mod_bound(zeta_spec(256int / (len as int) - 1 - i / (2 * len as int)) * ((y[i] - y[i - len]) % q()) * mont_r_inv(), q());
                }
            }
        }
        len = len * 2;
        proof {
            m = m + 1;
        }
    }
    proof {
        assert(m == 7);
    }
}

/// Inverse number-theoretic transform: seven inverse layers on the first 256
/// entries of `r`, then every entry of `r` is multiplied (Montgomery) by
/// `INV_SCALE`, which divides by 128.
pub fn invntt(r: &mut [u64])
    requires
        old(r)@.len() >= 256,
        forall|i: int| 0 <= i < old(r)@.len() ==> (#[trigger] old(r)@[i] as int) < q(),
    ensures
        final(r)@.len() == old(r)@.len(),
        u64s_to_ints(final(r)@) == invntt_spec(u64s_to_ints(old(r)@)),
        forall|i: int| 0 <= i < final(r)@.len() ==> (#[trigger] final(r)@[i] as int) < q(),
{
    let ghost x0 = u64s_to_ints(r@);
    let ghost r0 = r@;
    invntt_butterfly(r);
    let ghost y = u64s_to_ints(r@);
    proof {
        assert forall|i: int| 256 <= i < r@.len() implies (#[trigger] r@[i] as int) < q() by {
            assert(y[i] == invntt_layers(x0, 7)[i]);
            lemma_invntt_layers_tail(x0, 7, i);
            assert(r0[i] as int == x0[i]);
        }
    }
    let mut i: usize = 0;
    while i < r.len()
        invariant
            i <= r@.len(),
            r@.len() == y.len(),
            forall|j: int| 0 <= j < i ==> (#[trigger] r@[j] as int) == fqmul_spec(y[j], INV_SCALE as int),
            forall|j: int| i <= j < r@.len() ==> (#[trigger] r@[j] as int) == y[j],
            forall|j: int| 0 <= j < r@.len() ==> (#[trigger] y[j]) < q() && 0 <= y[j],
            forall|j: int| 0 <= j < i ==> (#[trigger] r@[j] as int) < q(),
        decreases r@.len() - i,
    {
        proof { lemma_constants(); }
        r[i] = fqmul(r[i], INV_SCALE);
        i = i + 1;
    }
    proof {
        assert(u64s_to_ints(r@) =~= invntt_spec(x0));
    }
}

/// Inverse layers leave the entries beyond the first 256 unchanged.
proof fn lemma_invntt_layers_tail(x: Seq<int>, m: nat, i: int)
    requires
        256 <= i < x.len(),
    ensures
        invntt_layers(x, m).len() == x.len(),
        invntt_layers(x, m)[i] == x[i],
    decreases m,
{
    if m > 0 {
        lemma_invntt_layers_tail(x, (m - 1) as nat, i);
    }
}

/// The inverse transform preserves the length.
pub proof fn lemma_invntt_len(x: Seq<int>)
    ensures
        invntt_spec(x).len() == x.len(),
        invntt_layers(x, 7).len() == x.len(),
{
    lemma_invntt_layers_len(x, 7);
}

/// Inverse layers preserve the length.
pub(crate) proof fn lemma_invntt_layers_len(x: Seq<int>, m: nat)
    ensures
        invntt_layers(x, m).len() == x.len(),
    decreases m,
{
    if m > 0 {
        lemma_invntt_layers_len(x, (m - 1) as nat);
    }
}

/// Forward layers preserve the length.
pub(crate) proof fn lemma_ntt_layers_len(x: Seq<int>, m: nat)
    ensures
        ntt_layers(x, m).len() == x.len(),
    decreases m,
{
    if m > 0 {
        lemma_ntt_layers_len(x, (m - 1) as nat);
    }
}

/// Montgomery product by a pair of matching zetas negates its argument.
proof fn lemma_zeta_pair_cancel(zf: int, zi: int, v: int)
    requires
        (zf * zi * mont_r_inv() * mont_r_inv()) % q() == q() - 1,
    ensures
        fqmul_spec(zi, fqmul_spec(zf, v)) == (-v) % q(),
        fqmul_spec(zf, fqmul_spec(zi, v)) == (-v) % q(),
{
    let ri = mont_r_inv();
    let qq = q();
    let p = zf * zi * ri * ri;
    lemma_constants();
    // zi (zf v ri mod q) ri == zi ri (zf v ri) == v p (mod q)
    assert(zi * ((zf * v * ri) % qq) * ri == (zi * ri) * ((zf * v * ri) % qq)) by (nonlinear_arith);
    lemma_mul_mod_noop_right(zi * ri, zf * v * ri, qq);
    assert((zi * ri) * (zf * v * ri) == v * p) by (nonlinear_arith) requires p == zf * zi * ri * ri;
    assert(zf * ((zi * v * ri) % qq) * ri == (zf * ri) * ((zi * v * ri) % qq)) by (nonlinear_arith);
    lemma_mul_mod_noop_right(zf * ri, zi * v * ri, qq);
    assert((zf * ri) * (zi * v * ri) == v * p) by (nonlinear_arith) requires p == zf * zi * ri * ri;
    lemma_mul_mod_noop_right(v, p, qq);
    assert(v * (qq - 1) == qq * v + (-v)) by (nonlinear_arith);
    lemma_mod_multiples_vanish(v, -v, qq);
}

/// `(c (x mod q)) mod q` is `(c x) mod q`.
proof fn lemma_scale_noop(c: int, x: int)
    ensures
        (c * (x % q())) % q() == (c * x) % q(),
{
    lemma_constants();
    lemma_mul_mod_noop_right(c, x, q());
}

/// Forward layer entries are residues modulo q, and the layer keeps the length.
proof fn lemma_ntt_layer_canonical(x: Seq<int>, len: int)
    requires
        x.len() == 256,
    ensures
        ntt_layer(x, len).len() == 256,
        canonical(ntt_layer(x, len)),
{
    lemma_constants();
    assert forall|i: int| 0 <= i < 256 implies 0 <= #[trigger] ntt_layer(x, len)[i] < q() by {
        let z = zeta_spec(128int / len + i / (2 * len));
        if i % (2 * len) < len {
            lemma_mod_bound(x[i] + fqmul_spec(z, x[i + len]), q());
        } else {
            lemma_mod_bound(x[i - len] - fqmul_spec(z, x[i]), q());
        }
    }
}

/// Inverse layer entries are residues modulo q, and the layer keeps the length.
proof fn lemma_invntt_layer_canonical(x: Seq<int>, len: int)
    requires
        x.len() == 256,
    ensures
        invntt_layer(x, len).len() == 256,
        canonical(invntt_layer(x, len)),
{
    lemma_constants();
    assert forall|i: int| 0 <= i < 256 implies 0 <= #[trigger] invntt_layer(x, len)[i] < q() by {
        let z = zeta_spec(256int / len - 1 - i / (2 * len));
        if i % (2 * len) < len {
            lemma_mod_bound(x[i] + x[i + len], q());
        } else {
            lemma_mod_bound(z * ((x[i] - x[i - len]) % q()) * mont_r_inv(), q());
        }
    }
}

/// A canonical sequence is unchanged by scaling with 1.
proof fn lemma_scale_one(x: Seq<int>)
    requires
        canonical(x),
    ensures
        scale_mod(x, 1) == x,
{
    assert forall|i: int| 0 <= i < x.len() implies #[trigger] scale_mod(x, 1)[i] == x[i] by {
        lemma_small_mod(x[i] as nat, q() as nat);
    }
    assert(scale_mod(x, 1) =~= x);
}

/// Scaling twice is scaling by the product.
proof fn lemma_scale_scale(x: Seq<int>, a: int, b: int)
    ensures
        scale_mod(scale_mod(x, a), b) == scale_mod(x, a * b),
{
    assert forall|i: int| 0 <= i < x.len() implies #[trigger] scale_mod(scale_mod(x, a), b)[i] == scale_mod(x, a * b)[i] by {
        lemma_scale_noop(b, a * x[i]);
        assert(b * (a * x[i]) == (a * b) * x[i]) by (nonlinear_arith);
    }
    assert(scale_mod(scale_mod(x, a), b) =~= scale_mod(x, a * b));
}

/// Montgomery product with a scaled argument.
proof fn lemma_fqmul_scale(z: int, c: int, b: int)
    ensures
        fqmul_spec(z, (c * b) % q()) == (c * fqmul_spec(z, b)) % q(),
        fqmul_spec(z, b % q()) == fqmul_spec(z, b),
{
    lemma_constants();
    let qq = q();
    let ri = mont_r_inv();
    assert(z * ((c * b) % qq) * ri == (z * ri) * ((c * b) % qq)) by (nonlinear_arith);
    lemma_mul_mod_noop_right(z * ri, c * b, qq);
    assert((z * ri) * (c * b) == c * (z * b * ri)) by (nonlinear_arith);
    lemma_scale_noop(c, z * b * ri);
    assert(z * (b % qq) * ri == (z * ri) * (b % qq)) by (nonlinear_arith);
    lemma_mul_mod_noop_right(z * ri, b, qq);
    assert((z * ri) * b == z * b * ri) by (nonlinear_arith);
}

/// Scaling a sum or difference of residues.
proof fn lemma_scale_lin(c: int, a: int, t: int)
    ensures
        ((c * a) % q() + (c * t) % q()) % q() == (c * ((a + t) % q())) % q(),
        ((c * a) % q() - (c * t) % q()) % q() == (c * ((a - t) % q())) % q(),
{
    lemma_constants();
    let qq = q();
    lemma_add_mod_noop(c * a, c * t, qq);
    lemma_sub_mod_noop(c * a, c * t, qq);
    assert(c * a + c * t == c * (a + t)) by (nonlinear_arith);
    assert(c * a - c * t == c * (a - t)) by (nonlinear_arith);
    lemma_scale_noop(c, a + t);
    lemma_scale_noop(c, a - t);
}

/// A forward layer commutes with scaling.
proof fn lemma_ntt_layer_scale(x: Seq<int>, len: int, c: int)
    requires
        x.len() == 256,
        is_layer_len(len),
    ensures
        ntt_layer(scale_mod(x, c), len) == scale_mod(ntt_layer(x, len), c),
{
    let y = scale_mod(x, c);
    assert forall|i: int| 0 <= i < 256 implies #[trigger] ntt_layer(y, len)[i] == scale_mod(ntt_layer(x, len), c)[i] by {
        lemma_partner(i, len);
        let z = zeta_spec(128int / len + i / (2 * len));
        if i % (2 * len) < len {
            lemma_fqmul_scale(z, c, x[i + len]);
            lemma_scale_lin(c, x[i], fqmul_spec(z, x[i + len]));
        } else {
            lemma_fqmul_scale(z, c, x[i]);
            lemma_scale_lin(c, x[i - len], fqmul_spec(z, x[i]));
        }
    }
    assert(ntt_layer(y, len) =~= scale_mod(ntt_layer(x, len), c));
}

/// An inverse layer commutes with scaling.
proof fn lemma_invntt_layer_scale(x: Seq<int>, len: int, c: int)
    requires
        x.len() == 256,
        is_layer_len(len),
    ensures
        invntt_layer(scale_mod(x, c), len) == scale_mod(invntt_layer(x, len), c),
{
    let y = scale_mod(x, c);
    assert forall|i: int| 0 <= i < 256 implies #[trigger] invntt_layer(y, len)[i] == scale_mod(invntt_layer(x, len), c)[i] by {
        lemma_partner(i, len);
        let z = zeta_spec(256int / len - 1 - i / (2 * len));
        if i % (2 * len) < len {
            lemma_scale_lin(c, x[i], x[i + len]);
            lemma_scale_lin(1, c * x[i], c * x[i + len]);
            lemma_constants();
            lemma_mod_twice(c * x[i], q());
            lemma_mod_twice(c * x[i + len], q());
            lemma_add_mod_noop(c * x[i], c * x[i + len], q());
        } else {
            let d = x[i] - x[i - len];
            lemma_scale_lin(c, x[i], x[i - len]);
            lemma_constants();
            lemma_sub_mod_noop(c * x[i], c * x[i - len], q());
            assert(c * x[i] - c * x[i - len] == c * d) by (nonlinear_arith)
                requires d == x[i] - x[i - len];
            lemma_scale_noop(c, d);
            lemma_fqmul_scale(z, c, d % q());
            lemma_mod_twice(c * d, q());
            lemma_fqmul_scale(z, 1, c * d);
        }
    }
    assert(invntt_layer(y, len) =~= scale_mod(invntt_layer(x, len), c));
}

/// Forward layers commute with scaling.
pub(crate) proof fn lemma_ntt_layers_scale(x: Seq<int>, m: nat, c: int)
    requires
        x.len() == 256,
        m <= 7,
    ensures
        ntt_layers(scale_mod(x, c), m) == scale_mod(ntt_layers(x, m), c),
        ntt_layers(x, m).len() == 256,
    decreases m,
{
    if m > 0 {
        lemma_ntt_layers_scale(x, (m - 1) as nat, c);
        lemma_ntt_layer_scale(ntt_layers(x, (m - 1) as nat), fwd_len(m - 1), c);
        lemma_ntt_layer_canonical(ntt_layers(x, (m - 1) as nat), fwd_len(m - 1));
    }
}

/// Butterfly algebra: an inverse butterfly after a forward butterfly doubles.
proof fn lemma_butterfly_inv_fwd(a: int, b: int, zf: int, zi: int)
    requires
        (zf * zi * mont_r_inv() * mont_r_inv()) % q() == q() - 1,
    ensures
        ((a + fqmul_spec(zf, b)) % q() + (a - fqmul_spec(zf, b)) % q()) % q() == (2 * a) % q(),
        fqmul_spec(zi, ((a - fqmul_spec(zf, b)) % q() - (a + fqmul_spec(zf, b)) % q()) % q())
            == (2 * b) % q(),
{
    lemma_constants();
    let qq = q();
    let t = fqmul_spec(zf, b);
    lemma_add_mod_noop(a + t, a - t, qq);
    lemma_sub_mod_noop(a - t, a + t, qq);
    // fqmul_spec(zi, (-2 t) mod q) == -2 fqmul_spec(zi, t) mod q == -2 (-b) mod q
    lemma_fqmul_scale(zi, -2, t);
    lemma_zeta_pair_cancel(zf, zi, b);
    lemma_scale_noop(-2, -b);
}

/// Butterfly algebra: a forward butterfly after an inverse butterfly doubles.
proof fn lemma_butterfly_fwd_inv(a: int, b: int, zf: int, zi: int)
    requires
        (zf * zi * mont_r_inv() * mont_r_inv()) % q() == q() - 1,
    ensures
        ((a + b) % q() + fqmul_spec(zf, fqmul_spec(zi, (b - a) % q()))) % q() == (2 * a) % q(),
        ((a + b) % q() - fqmul_spec(zf, fqmul_spec(zi, (b - a) % q()))) % q() == (2 * b) % q(),
{
    lemma_constants();
    let qq = q();
    lemma_fqmul_scale(zi, 1, b - a);
    lemma_zeta_pair_cancel(zf, zi, b - a);
    let u = fqmul_spec(zf, fqmul_spec(zi, (b - a) % qq));
    assert(u == (a - b) % qq);
    lemma_add_mod_noop(a + b, a - b, qq);
    lemma_sub_mod_noop(a + b, a - b, qq);
    lemma_mod_twice(a + b, qq);
    lemma_mod_twice(a - b, qq);
}

/// An inverse layer undoes a forward layer up to a factor 2.
proof fn lemma_invntt_ntt_layer(x: Seq<int>, len: int)
    requires
        x.len() == 256,
        canonical(x),
        is_layer_len(len),
    ensures
        invntt_layer(ntt_layer(x, len), len) == scale_mod(x, 2),
{
    lemma_len_div(len);
    let f = ntt_layer(x, len);
    assert forall|i: int| 0 <= i < 256 implies #[trigger] invntt_layer(f, len)[i] == scale_mod(x, 2)[i] by {
        lemma_partner(i, len);
        let blk = i / (2 * len);
        lemma_zeta_pair(len, blk);
        let zf = zeta_spec(128int / len + blk);
        let zi = zeta_spec(256int / len - 1 - blk);
        if i % (2 * len) < len {
            lemma_butterfly_inv_fwd(x[i], x[i + len], zf, zi);
        } else {
            lemma_butterfly_inv_fwd(x[i - len], x[i], zf, zi);
        }
    }
    lemma_invntt_layer_canonical(f, len);
    assert(invntt_layer(f, len) =~= scale_mod(x, 2));
}

/// A forward layer undoes an inverse layer up to a factor 2.
proof fn lemma_ntt_invntt_layer(x: Seq<int>, len: int)
    requires
        x.len() == 256,
        canonical(x),
        is_layer_len(len),
    ensures
        ntt_layer(invntt_layer(x, len), len) == scale_mod(x, 2),
{
    lemma_len_div(len);
    let g = invntt_layer(x, len);
    assert forall|i: int| 0 <= i < 256 implies #[trigger] ntt_layer(g, len)[i] == scale_mod(x, 2)[i] by {
        lemma_partner(i, len);
        let blk = i / (2 * len);
        lemma_zeta_pair(len, blk);
        let zf = zeta_spec(128int / len + blk);
        let zi = zeta_spec(256int / len - 1 - blk);
        if i % (2 * len) < len {
            lemma_butterfly_fwd_inv(x[i], x[i + len], zf, zi);
        } else {
            lemma_butterfly_fwd_inv(x[i - len], x[i], zf, zi);
        }
    }
    lemma_ntt_layer_canonical(g, len);
    assert(ntt_layer(g, len) =~= scale_mod(x, 2));
}

/// Powers of two.
pub open spec fn two_pow(n: nat) -> int
    decreases n,
{
    if n == 0 {
        1
    } else {
        2 * two_pow((n - 1) as nat)
    }
}

/// Forward layers produce residues and keep the length.
pub(crate) proof fn lemma_ntt_layers_canonical(x: Seq<int>, m: nat)
    requires
        x.len() == 256,
        canonical(x),
        m <= 7,
    ensures
        ntt_layers(x, m).len() == 256,
        canonical(ntt_layers(x, m)),
    decreases m,
{
    if m > 0 {
        lemma_ntt_layers_canonical(x, (m - 1) as nat);
        lemma_ntt_layer_canonical(ntt_layers(x, (m - 1) as nat), fwd_len(m - 1));
    }
}

/// Inverse layers produce residues and keep the length.
proof fn lemma_invntt_layers_canonical(x: Seq<int>, m: nat)
    requires
        x.len() == 256,
        canonical(x),
        m <= 7,
    ensures
        invntt_layers(x, m).len() == 256,
        canonical(invntt_layers(x, m)),
    decreases m,
{
    if m > 0 {
        lemma_invntt_layers_canonical(x, (m - 1) as nat);
        lemma_invntt_layer_canonical(invntt_layers(x, (m - 1) as nat), inv_len(m - 1));
    }
}

/// The last `7 - m` inverse layers undo the last `7 - m` forward layers, up
/// to a factor `2^(7-m)`.
proof fn lemma_invntt_layers_ntt_layers(x: Seq<int>, m: nat)
    requires
        x.len() == 256,
        canonical(x),
        m <= 7,
    ensures
        invntt_layers(ntt_layers(x, 7), (7 - m) as nat) == scale_mod(ntt_layers(x, m), two_pow((7 - m) as nat)),
    decreases 7 - m,
{
    lemma_ntt_layers_canonical(x, m);
    lemma_ntt_layers_canonical(x, 7);
    if m == 7 {
        lemma_scale_one(ntt_layers(x, 7));
    } else {
        let n = ntt_layers(x, m);
        let len = fwd_len(m as int);
        let p = two_pow((6 - m) as nat);
        lemma_invntt_layers_ntt_layers(x, m + 1);
        assert(inv_len(6 - m) == len);
        assert(ntt_layers(x, m + 1) == ntt_layer(n, len));
        assert(invntt_layers(ntt_layers(x, 7), (7 - m) as nat)
            == invntt_layer(invntt_layers(ntt_layers(x, 7), (6 - m) as nat), len));
        lemma_ntt_layer_canonical(n, len);
        lemma_invntt_layer_scale(ntt_layer(n, len), len, p);
        lemma_invntt_ntt_layer(n, len);
        lemma_scale_scale(n, 2, p);
        assert(two_pow((7 - m) as nat) == 2 * p);
    }
}

/// The first `n` forward layers undo the last `n` inverse layers, up to a
/// factor `2^n`.
proof fn lemma_ntt_layers_invntt_layers(y: Seq<int>, n: nat)
    requires
        y.len() == 256,
        canonical(y),
        n <= 7,
    ensures
        ntt_layers(invntt_layers(y, 7), n) == scale_mod(invntt_layers(y, (7 - n) as nat), two_pow(n)),
    decreases n,
{
    lemma_invntt_layers_canonical(y, 7);
    lemma_invntt_layers_canonical(y, (7 - n) as nat);
    if n == 0 {
        lemma_scale_one(invntt_layers(y, 7));
    } else {
        let v = invntt_layers(y, (7 - n) as nat);
        let len = fwd_len(n - 1);
        let p = two_pow((n - 1) as nat);
        lemma_ntt_layers_invntt_layers(y, (n - 1) as nat);
        assert(inv_len(7 - n) == len);
        assert(invntt_layers(y, (8 - n) as nat) == invntt_layer(v, len));
        lemma_invntt_layer_canonical(v, len);
        lemma_ntt_layer_scale(invntt_layer(v, len), len, p);
        lemma_ntt_invntt_layer(v, len);
        lemma_scale_scale(v, 2, p);
    }
}

/// Scaling by 128 and then a Montgomery multiplication by `INV_SCALE` is the
/// identity on residues.
proof fn lemma_inv_scale(v: int)
    requires
        0 <= v < q(),
    ensures
        fqmul_spec((128 * v) % q(), INV_SCALE as int) == v,
        (((INV_SCALE as int) * mont_r_inv()) * ((128 * v) % q())) % q() == v,
{
    lemma_constants();
    let qq = q();
    let ri = mont_r_inv();
    let c = (INV_SCALE as int) * ri;
    assert(((128 * v) % qq) * (INV_SCALE as int) * ri == c * ((128 * v) % qq)) by (nonlinear_arith)
        requires c == (INV_SCALE as int) * ri;
    lemma_mul_mod_noop_right(c, 128 * v, qq);
    assert(c * (128 * v) == (mont_r() * ri) * v) by (nonlinear_arith)
        requires c == (INV_SCALE as int) * ri, mont_r() == 128 * (INV_SCALE as int);
    lemma_mul_mod_noop_left(mont_r() * ri, v, qq);
    lemma_small_mod(v as nat, qq as nat);
}

/// The inverse transform undoes the forward transform on every polynomial
/// with canonical coefficients.
pub proof fn lemma_invntt_ntt(x: Seq<int>)
    requires
        x.len() == 256,
        canonical(x),
    ensures
        invntt_spec(ntt_spec(x)) == x,
{
    lemma_invntt_layers_ntt_layers(x, 0);
    reveal_with_fuel(two_pow, 8);
    let y = invntt_layers(ntt_spec(x), 7);
    assert(y == scale_mod(x, 128));
    assert forall|j: int| 0 <= j < 256 implies #[trigger] invntt_spec(ntt_spec(x))[j] == x[j] by {
        lemma_inv_scale(x[j]);
    }
    assert(invntt_spec(ntt_spec(x)) =~= x);
}

/// The forward transform undoes the inverse transform on every polynomial
/// with canonical coefficients.
pub proof fn lemma_ntt_invntt(y: Seq<int>)
    requires
        y.len() == 256,
        canonical(y),
    ensures
        ntt_spec(invntt_spec(y)) == y,
{
    let c = (INV_SCALE as int) * mont_r_inv();
    let w = invntt_layers(y, 7);
    lemma_invntt_layers_canonical(y, 7);
    assert(invntt_spec(y) =~= scale_mod(w, c)) by {
        assert forall|j: int| 0 <= j < 256 implies #[trigger] invntt_spec(y)[j] == scale_mod(w, c)[j] by {
            assert(w[j] * (INV_SCALE as int) * mont_r_inv() == c * w[j]) by (nonlinear_arith)
                requires c == (INV_SCALE as int) * mont_r_inv();
        }
    }
    lemma_ntt_layers_scale(w, 7, c);
    lemma_ntt_layers_invntt_layers(y, 7);
    reveal_with_fuel(two_pow, 8);
    assert(ntt_layers(w, 7) == scale_mod(y, 128));
    assert forall|j: int| 0 <= j < 256 implies #[trigger] ntt_spec(invntt_spec(y))[j] == y[j] by {
        lemma_inv_scale(y[j]);
    }
    assert(ntt_spec(invntt_spec(y)) =~= y);
}

} // verus!
