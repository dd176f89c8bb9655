//! That the catalogue's list keys are all different, shown by putting them
//! in dictionary order: each key comes strictly before the next.
use vstd::prelude::*;
use crate::blocklist::source_keys;
use crate::catalogue::source_table;
use crate::text::{lex_at, lex_before, lemma_lex_before_differ, lemma_lex_chain};

verus! {

// ------------------------------------------------------------ list keys

/// the catalogue's lists in the dictionary order of their keys, as places
/// in the table
spec fn key_order(k: int) -> int {
    if k == 0 {
        11
    } else if k == 1 {
        9
    } else if k == 2 {
        27
    } else if k == 3 {
        13
    } else if k == 4 {
        30
    } else if k == 5 {
        59
    } else if k == 6 {
        46
    } else if k == 7 {
        26
    } else if k == 8 {
        51
    } else if k == 9 {
        22
    } else if k == 10 {
        23
    } else if k == 11 {
        57
    } else if k == 12 {
        55
    } else if k == 13 {
        24
    } else if k == 14 {
        29
    } else if k == 15 {
        25
    } else if k == 16 {
        47
    } else if k == 17 {
        58
    } else if k == 18 {
        16
    } else if k == 19 {
        60
    } else if k == 20 {
        48
    } else if k == 21 {
        15
    } else if k == 22 {
        14
    } else if k == 23 {
        56
    } else if k == 24 {
        31
    } else if k == 25 {
        32
    } else if k == 26 {
        28
    } else if k == 27 {
        49
    } else if k == 28 {
        50
    } else if k == 29 {
        0
    } else if k == 30 {
        36
    } else if k == 31 {
        35
    } else if k == 32 {
        39
    } else if k == 33 {
        41
    } else if k == 34 {
        44
    } else if k == 35 {
        42
    } else if k == 36 {
        37
    } else if k == 37 {
        40
    } else if k == 38 {
        43
    } else if k == 39 {
        34
    } else if k == 40 {
        38
    } else if k == 41 {
        1
    } else if k == 42 {
        33
    } else if k == 43 {
        52
    } else if k == 44 {
        5
    } else if k == 45 {
        2
    } else if k == 46 {
        3
    } else if k == 47 {
        17
    } else if k == 48 {
        18
    } else if k == 49 {
        19
    } else if k == 50 {
        4
    } else if k == 51 {
        7
    } else if k == 52 {
        53
    } else if k == 53 {
        6
    } else if k == 54 {
        10
    } else if k == 55 {
        20
    } else if k == 56 {
        54
    } else if k == 57 {
        45
    } else if k == 58 {
        12
    } else if k == 59 {
        8
    } else {
        21
    }
}

/// where a list of the table stands in `key_order`
spec fn key_rank(i: int) -> int {
    if i == 0 {
        29
    } else if i == 1 {
        41
    } else if i == 2 {
        45
    } else if i == 3 {
        46
    } else if i == 4 {
        50
    } else if i == 5 {
        44
    } else if i == 6 {
        53
    } else if i == 7 {
        51
    } else if i == 8 {
        59
    } else if i == 9 {
        1
    } else if i == 10 {
        54
    } else if i == 11 {
        0
    } else if i == 12 {
        58
    } else if i == 13 {
        3
    } else if i == 14 {
        22
    } else if i == 15 {
        21
    } else if i == 16 {
        18
    } else if i == 17 {
        47
    } else if i == 18 {
        48
    } else if i == 19 {
        49
    } else if i == 20 {
        55
    } else if i == 21 {
        60
    } else if i == 22 {
        9
    } else if i == 23 {
        10
    } else if i == 24 {
        13
    } else if i == 25 {
        15
    } else if i == 26 {
        7
    } else if i == 27 {
        2
    } else if i == 28 {
        26
    } else if i == 29 {
        14
    } else if i == 30 {
        4
    } else if i == 31 {
        24
    } else if i == 32 {
        25
    } else if i == 33 {
        42
    } else if i == 34 {
        39
    } else if i == 35 {
        31
    } else if i == 36 {
        30
    } else if i == 37 {
        36
    } else if i == 38 {
        40
    } else if i == 39 {
        32
    } else if i == 40 {
        37
    } else if i == 41 {
        33
    } else if i == 42 {
        35
    } else if i == 43 {
        38
    } else if i == 44 {
        34
    } else if i == 45 {
        57
    } else if i == 46 {
        6
    } else if i == 47 {
        16
    } else if i == 48 {
        20
    } else if i == 49 {
        27
    } else if i == 50 {
        28
    } else if i == 51 {
        8
    } else if i == 52 {
        43
    } else if i == 53 {
        52
    } else if i == 54 {
        56
    } else if i == 55 {
        12
    } else if i == 56 {
        23
    } else if i == 57 {
        11
    } else if i == 58 {
        17
    } else if i == 59 {
        5
    } else {
        19
    }
}

/// keys 0 to 10 of `key_order` are each before the next
#[verifier::rlimit(100)]
#[verifier::spinoff_prover]
proof fn lemma_keys_in_order_0()
    ensures
        lex_before(source_keys()[11], source_keys()[9]),
        lex_before(source_keys()[9], source_keys()[27]),
        lex_before(source_keys()[27], source_keys()[13]),
        lex_before(source_keys()[13], source_keys()[30]),
        lex_before(source_keys()[30], source_keys()[59]),
        lex_before(source_keys()[59], source_keys()[46]),
        lex_before(source_keys()[46], source_keys()[26]),
        lex_before(source_keys()[26], source_keys()[51]),
        lex_before(source_keys()[51], source_keys()[22]),
        lex_before(source_keys()[22], source_keys()[23]),
{
    reveal_strlit("abuse");
    reveal_strlit("adaway");
    reveal_strlit("adaway:hosts");
    reveal_strlit("adguard");
    reveal_strlit("adguard:dns");
    reveal_strlit("ads");
    reveal_strlit("blocklistproject");
    reveal_strlit("blocklistproject:abuse");
    reveal_strlit("blocklistproject:ads");
    reveal_strlit("blocklistproject:crypto");
    reveal_strlit("blocklistproject:drugs");
    reveal_strlit("blocklistproject:facebook");
    reveal_strlit("blocklistproject:fraud");
    reveal_strlit("blocklistproject:gambling");
    reveal_strlit("blocklistproject:malware");
    reveal_strlit("blocklistproject:phishing");
    reveal_strlit("crypto");
    reveal_strlit("dns");
    reveal_strlit("drugs");
    reveal_strlit("facebook");
    reveal_strlit("fraud");
    reveal_strlit("gambling");
    reveal_strlit("hosts");
    reveal_strlit("malware");
    reveal_strlit("phishing");
    assert(source_keys()[11] =~= "adaway:hosts"@);
    assert(source_keys()[9] =~= "adguard:dns"@);
    assert(source_keys()[11].take(2) =~= source_keys()[9].take(2));
    assert(lex_at(source_keys()[11], source_keys()[9], 2));
    assert(source_keys()[9] =~= "adguard:dns"@);
    assert(source_keys()[27] =~= "blocklistproject:abuse"@);
    assert(source_keys()[9].take(0) =~= source_keys()[27].take(0));
    assert(lex_at(source_keys()[9], source_keys()[27], 0));
    assert(source_keys()[27] =~= "blocklistproject:abuse"@);
    assert(source_keys()[13] =~= "blocklistproject:ads"@);
    assert(source_keys()[27].take(18) =~= source_keys()[13].take(18));
    assert(lex_at(source_keys()[27], source_keys()[13], 18));
    assert(source_keys()[13] =~= "blocklistproject:ads"@);
    assert(source_keys()[30] =~= "blocklistproject:crypto"@);
    assert(source_keys()[13].take(17) =~= source_keys()[30].take(17));
    assert(lex_at(source_keys()[13], source_keys()[30], 17));
    assert(source_keys()[30] =~= "blocklistproject:crypto"@);
    assert(source_keys()[59] =~= "blocklistproject:drugs"@);
    assert(source_keys()[30].take(17) =~= source_keys()[59].take(17));
    assert(lex_at(source_keys()[30], source_keys()[59], 17));
    assert(source_keys()[59] =~= "blocklistproject:drugs"@);
    assert(source_keys()[46] =~= "blocklistproject:facebook"@);
    assert(source_keys()[59].take(17) =~= source_keys()[46].take(17));
    assert(lex_at(source_keys()[59], source_keys()[46], 17));
    assert(source_keys()[46] =~= "blocklistproject:facebook"@);
    assert(source_keys()[26] =~= "blocklistproject:fraud"@);
    assert(source_keys()[46].take(18) =~= source_keys()[26].take(18));
    assert(lex_at(source_keys()[46], source_keys()[26], 18));
    assert(source_keys()[26] =~= "blocklistproject:fraud"@);
    assert(source_keys()[51] =~= "blocklistproject:gambling"@);
    assert(source_keys()[26].take(17) =~= source_keys()[51].take(17));
    assert(lex_at(source_keys()[26], source_keys()[51], 17));
    assert(source_keys()[51] =~= "blocklistproject:gambling"@);
    assert(source_keys()[22] =~= "blocklistproject:malware"@);
    assert(source_keys()[51].take(17) =~= source_keys()[22].take(17));
    assert(lex_at(source_keys()[51], source_keys()[22], 17));
    assert(source_keys()[22] =~= "blocklistproject:malware"@);
    assert(source_keys()[23] =~= "blocklistproject:phishing"@);
    assert(source_keys()[22].take(17) =~= source_keys()[23].take(17));
    assert(lex_at(source_keys()[22], source_keys()[23], 17));
}

/// keys 10 to 20 of `key_order` are each before the next
#[verifier::rlimit(100)]
#[verifier::spinoff_prover]
proof fn lemma_keys_in_order_1()
    ensures
        lex_before(source_keys()[23], source_keys()[57]),
        lex_before(source_keys()[57], source_keys()[55]),
        lex_before(source_keys()[55], source_keys()[24]),
        lex_before(source_keys()[24], source_keys()[29]),
        lex_before(source_keys()[29], source_keys()[25]),
        lex_before(source_keys()[25], source_keys()[47]),
        lex_before(source_keys()[47], source_keys()[58]),
        lex_before(source_keys()[58], source_keys()[16]),
        lex_before(source_keys()[16], source_keys()[60]),
        lex_before(source_keys()[60], source_keys()[48]),
{
    reveal_strlit("blocklistproject");
    reveal_strlit("blocklistproject:phishing");
    reveal_strlit("blocklistproject:piracy");
    reveal_strlit("blocklistproject:porn");
    reveal_strlit("blocklistproject:ransomware");
    reveal_strlit("blocklistproject:redirect");
    reveal_strlit("blocklistproject:scam");
    reveal_strlit("blocklistproject:tiktok");
    reveal_strlit("blocklistproject:torrent");
    reveal_strlit("blocklistproject:tracking");
    reveal_strlit("blocklistproject:vaping");
    reveal_strlit("blocklistproject:youtube");
    reveal_strlit("phishing");
    reveal_strlit("piracy");
    reveal_strlit("porn");
    reveal_strlit("ransomware");
    reveal_strlit("redirect");
    reveal_strlit("scam");
    reveal_strlit("tiktok");
    reveal_strlit("torrent");
    reveal_strlit("tracking");
    reveal_strlit("vaping");
    reveal_strlit("youtube");
    assert(source_keys()[23] =~= "blocklistproject:phishing"@);
    assert(source_keys()[57] =~= "blocklistproject:piracy"@);
    assert(source_keys()[23].take(18) =~= source_keys()[57].take(18));
    assert(lex_at(source_keys()[23], source_keys()[57], 18));
    assert(source_keys()[57] =~= "blocklistproject:piracy"@);
    assert(source_keys()[55] =~= "blocklistproject:porn"@);
    assert(source_keys()[57].take(18) =~= source_keys()[55].take(18));
    assert(lex_at(source_keys()[57], source_keys()[55], 18));
    assert(source_keys()[55] =~= "blocklistproject:porn"@);
    assert(source_keys()[24] =~= "blocklistproject:ransomware"@);
    assert(source_keys()[55].take(17) =~= source_keys()[24].take(17));
    assert(lex_at(source_keys()[55], source_keys()[24], 17));
    assert(source_keys()[24] =~= "blocklistproject:ransomware"@);
    assert(source_keys()[29] =~= "blocklistproject:redirect"@);
    assert(source_keys()[24].take(18) =~= source_keys()[29].take(18));
    assert(lex_at(source_keys()[24], source_keys()[29], 18));
    assert(source_keys()[29] =~= "blocklistproject:redirect"@);
    assert(source_keys()[25] =~= "blocklistproject:scam"@);
    assert(source_keys()[29].take(17) =~= source_keys()[25].take(17));
    assert(lex_at(source_keys()[29], source_keys()[25], 17));
    assert(source_keys()[25] =~= "blocklistproject:scam"@);
    assert(source_keys()[47] =~= "blocklistproject:tiktok"@);
    assert(source_keys()[25].take(17) =~= source_keys()[47].take(17));
    assert(lex_at(source_keys()[25], source_keys()[47], 17));
    assert(source_keys()[47] =~= "blocklistproject:tiktok"@);
    assert(source_keys()[58] =~= "blocklistproject:torrent"@);
    assert(source_keys()[47].take(18) =~= source_keys()[58].take(18));
    assert(lex_at(source_keys()[47], source_keys()[58], 18));
    assert(source_keys()[58] =~= "blocklistproject:torrent"@);
    assert(source_keys()[16] =~= "blocklistproject:tracking"@);
    assert(source_keys()[58].take(18) =~= source_keys()[16].take(18));
    assert(lex_at(source_keys()[58], source_keys()[16], 18));
    assert(source_keys()[16] =~= "blocklistproject:tracking"@);
    assert(source_keys()[60] =~= "blocklistproject:vaping"@);
    assert(source_keys()[16].take(17) =~= source_keys()[60].take(17));
    assert(lex_at(source_keys()[16], source_keys()[60], 17));
    assert(source_keys()[60] =~= "blocklistproject:vaping"@);
    assert(source_keys()[48] =~= "blocklistproject:youtube"@);
    assert(source_keys()[60].take(17) =~= source_keys()[48].take(17));
    assert(lex_at(source_keys()[60], source_keys()[48], 17));
}

/// keys 20 to 30 of `key_order` are each before the next
#[verifier::rlimit(100)]
#[verifier::spinoff_prover]
proof fn lemma_keys_in_order_2()
    ensures
        lex_before(source_keys()[48], source_keys()[15]),
        lex_before(source_keys()[15], source_keys()[14]),
        lex_before(source_keys()[14], source_keys()[56]),
        lex_before(source_keys()[56], source_keys()[31]),
        lex_before(source_keys()[31], source_keys()[32]),
        lex_before(source_keys()[32], source_keys()[28]),
        lex_before(source_keys()[28], source_keys()[49]),
        lex_before(source_keys()[49], source_keys()[50]),
        lex_before(source_keys()[50], source_keys()[0]),
        lex_before(source_keys()[0], source_keys()[36]),
{
    reveal_strlit("anti.piracy");
    reveal_strlit("blocklistproject");
    reveal_strlit("blocklistproject:youtube");
    reveal_strlit("doh");
    reveal_strlit("dyndns");
    reveal_strlit("fake");
    reveal_strlit("firstparty");
    reveal_strlit("frogeye");
    reveal_strlit("frogeye:firstparty");
    reveal_strlit("frogeye:multiparty");
    reveal_strlit("gambling");
    reveal_strlit("gambling.medium");
    reveal_strlit("hagezi");
    reveal_strlit("hagezi:anti.piracy");
    reveal_strlit("hagezi:doh");
    reveal_strlit("hagezi:dyndns");
    reveal_strlit("hagezi:fake");
    reveal_strlit("hagezi:gambling");
    reveal_strlit("hagezi:gambling.medium");
    reveal_strlit("hagezi:light");
    reveal_strlit("hagezi:native.amazon");
    reveal_strlit("light");
    reveal_strlit("multiparty");
    reveal_strlit("native.amazon");
    reveal_strlit("youtube");
    assert(source_keys()[48] =~= "blocklistproject:youtube"@);
    assert(source_keys()[15] =~= "frogeye:firstparty"@);
    assert(source_keys()[48].take(0) =~= source_keys()[15].take(0));
    assert(lex_at(source_keys()[48], source_keys()[15], 0));
    assert(source_keys()[15] =~= "frogeye:firstparty"@);
    assert(source_keys()[14] =~= "frogeye:multiparty"@);
    assert(source_keys()[15].take(8) =~= source_keys()[14].take(8));
    assert(lex_at(source_keys()[15], source_keys()[14], 8));
    assert(source_keys()[14] =~= "frogeye:multiparty"@);
    assert(source_keys()[56] =~= "hagezi:anti.piracy"@);
    assert(source_keys()[14].take(0) =~= source_keys()[56].take(0));
    assert(lex_at(source_keys()[14], source_keys()[56], 0));
    assert(source_keys()[56] =~= "hagezi:anti.piracy"@);
    assert(source_keys()[31] =~= "hagezi:doh"@);
    assert(source_keys()[56].take(7) =~= source_keys()[31].take(7));
    assert(lex_at(source_keys()[56], source_keys()[31], 7));
    assert(source_keys()[31] =~= "hagezi:doh"@);
    assert(source_keys()[32] =~= "hagezi:dyndns"@);
    assert(source_keys()[31].take(8) =~= source_keys()[32].take(8));
    assert(lex_at(source_keys()[31], source_keys()[32], 8));
    assert(source_keys()[32] =~= "hagezi:dyndns"@);
    assert(source_keys()[28] =~= "hagezi:fake"@);
    assert(source_keys()[32].take(7) =~= source_keys()[28].take(7));
    assert(lex_at(source_keys()[32], source_keys()[28], 7));
    assert(source_keys()[28] =~= "hagezi:fake"@);
    assert(source_keys()[49] =~= "hagezi:gambling"@);
    assert(source_keys()[28].take(7) =~= source_keys()[49].take(7));
    assert(lex_at(source_keys()[28], source_keys()[49], 7));
    assert(source_keys()[49] =~= "hagezi:gambling"@);
    assert(source_keys()[50] =~= "hagezi:gambling.medium"@);
    assert(source_keys()[49].take(15) =~= source_keys()[50].take(15));
    assert(lex_at(source_keys()[49], source_keys()[50], 15));
    assert(source_keys()[50] =~= "hagezi:gambling.medium"@);
    assert(source_keys()[0] =~= "hagezi:light"@);
    assert(source_keys()[50].take(7) =~= source_keys()[0].take(7));
    assert(lex_at(source_keys()[50], source_keys()[0], 7));
    assert(source_keys()[0] =~= "hagezi:light"@);
    assert(source_keys()[36] =~= "hagezi:native.amazon"@);
    assert(source_keys()[0].take(7) =~= source_keys()[36].take(7));
    assert(lex_at(source_keys()[0], source_keys()[36], 7));
}

/// keys 30 to 40 of `key_order` are each before the next
#[verifier::rlimit(100)]
#[verifier::spinoff_prover]
proof fn lemma_keys_in_order_3()
    ensures
        lex_before(source_keys()[36], source_keys()[35]),
        lex_before(source_keys()[35], source_keys()[39]),
        lex_before(source_keys()[39], source_keys()[41]),
        lex_before(source_keys()[41], source_keys()[44]),
        lex_before(source_keys()[44], source_keys()[42]),
        lex_before(source_keys()[42], source_keys()[37]),
        lex_before(source_keys()[37], source_keys()[40]),
        lex_before(source_keys()[40], source_keys()[43]),
        lex_before(source_keys()[43], source_keys()[34]),
        lex_before(source_keys()[34], source_keys()[38]),
{
    reveal_strlit("hagezi");
    reveal_strlit("hagezi:native.amazon");
    reveal_strlit("hagezi:native.apple");
    reveal_strlit("hagezi:native.huawei");
    reveal_strlit("hagezi:native.lgwebos");
    reveal_strlit("hagezi:native.oppo-realme");
    reveal_strlit("hagezi:native.roku");
    reveal_strlit("hagezi:native.samsung");
    reveal_strlit("hagezi:native.tiktok");
    reveal_strlit("hagezi:native.vivo");
    reveal_strlit("hagezi:native.winoffice");
    reveal_strlit("hagezi:native.xiaomi");
    reveal_strlit("native.amazon");
    reveal_strlit("native.apple");
    reveal_strlit("native.huawei");
    reveal_strlit("native.lgwebos");
    reveal_strlit("native.oppo-realme");
    reveal_strlit("native.roku");
    reveal_strlit("native.samsung");
    reveal_strlit("native.tiktok");
    reveal_strlit("native.vivo");
    reveal_strlit("native.winoffice");
    reveal_strlit("native.xiaomi");
    assert(source_keys()[36] =~= "hagezi:native.amazon"@);
    assert(source_keys()[35] =~= "hagezi:native.apple"@);
    assert(source_keys()[36].take(15) =~= source_keys()[35].take(15));
    assert(lex_at(source_keys()[36], source_keys()[35], 15));
    assert(source_keys()[35] =~= "hagezi:native.apple"@);
    assert(source_keys()[39] =~= "hagezi:native.huawei"@);
    assert(source_keys()[35].take(14) =~= source_keys()[39].take(14));
    assert(lex_at(source_keys()[35], source_keys()[39], 14));
    assert(source_keys()[39] =~= "hagezi:native.huawei"@);
    assert(source_keys()[41] =~= "hagezi:native.lgwebos"@);
    assert(source_keys()[39].take(14) =~= source_keys()[41].take(14));
    assert(lex_at(source_keys()[39], source_keys()[41], 14));
    assert(source_keys()[41] =~= "hagezi:native.lgwebos"@);
    assert(source_keys()[44] =~= "hagezi:native.oppo-realme"@);
    assert(source_keys()[41].take(14) =~= source_keys()[44].take(14));
    assert(lex_at(source_keys()[41], source_keys()[44], 14));
    assert(source_keys()[44] =~= "hagezi:native.oppo-realme"@);
    assert(source_keys()[42] =~= "hagezi:native.roku"@);
    assert(source_keys()[44].take(14) =~= source_keys()[42].take(14));
    assert(lex_at(source_keys()[44], source_keys()[42], 14));
    assert(source_keys()[42] =~= "hagezi:native.roku"@);
    assert(source_keys()[37] =~= "hagezi:native.samsung"@);
    assert(source_keys()[42].take(14) =~= source_keys()[37].take(14));
    assert(lex_at(source_keys()[42], source_keys()[37], 14));
    assert(source_keys()[37] =~= "hagezi:native.samsung"@);
    assert(source_keys()[40] =~= "hagezi:native.tiktok"@);
    assert(source_keys()[37].take(14) =~= source_keys()[40].take(14));
    assert(lex_at(source_keys()[37], source_keys()[40], 14));
    assert(source_keys()[40] =~= "hagezi:native.tiktok"@);
    assert(source_keys()[43] =~= "hagezi:native.vivo"@);
    assert(source_keys()[40].take(14) =~= source_keys()[43].take(14));
    assert(lex_at(source_keys()[40], source_keys()[43], 14));
    assert(source_keys()[43] =~= "hagezi:native.vivo"@);
    assert(source_keys()[34] =~= "hagezi:native.winoffice"@);
    assert(source_keys()[43].take(14) =~= source_keys()[34].take(14));
    assert(lex_at(source_keys()[43], source_keys()[34], 14));
    assert(source_keys()[34] =~= "hagezi:native.winoffice"@);
    assert(source_keys()[38] =~= "hagezi:native.xiaomi"@);
    assert(source_keys()[34].take(14) =~= source_keys()[38].take(14));
    assert(lex_at(source_keys()[34], source_keys()[38], 14));
}

/// keys 40 to 50 of `key_order` are each before the next
#[verifier::rlimit(100)]
#[verifier::spinoff_prover]
proof fn lemma_keys_in_order_4()
    ensures
        lex_before(source_keys()[38], source_keys()[1]),
        lex_before(source_keys()[1], source_keys()[33]),
        lex_before(source_keys()[33], source_keys()[52]),
        lex_before(source_keys()[52], source_keys()[5]),
        lex_before(source_keys()[5], source_keys()[2]),
        lex_before(source_keys()[2], source_keys()[3]),
        lex_before(source_keys()[3], source_keys()[17]),
        lex_before(source_keys()[17], source_keys()[18]),
        lex_before(source_keys()[18], source_keys()[19]),
        lex_before(source_keys()[19], source_keys()[4]),
{
    reveal_strlit("hagezi");
    reveal_strlit("hagezi:native.xiaomi");
    reveal_strlit("hagezi:normal");
    reveal_strlit("hagezi:nosafesearch");
    reveal_strlit("hagezi:nsfw");
    reveal_strlit("hagezi:popupads");
    reveal_strlit("hagezi:pro");
    reveal_strlit("hagezi:pro.plus");
    reveal_strlit("hagezi:tif");
    reveal_strlit("hagezi:tif.medium");
    reveal_strlit("hagezi:tif.mini");
    reveal_strlit("hagezi:ultimate");
    reveal_strlit("native.xiaomi");
    reveal_strlit("normal");
    reveal_strlit("nosafesearch");
    reveal_strlit("nsfw");
    reveal_strlit("popupads");
    reveal_strlit("pro");
    reveal_strlit("pro.plus");
    reveal_strlit("tif");
    reveal_strlit("tif.medium");
    reveal_strlit("tif.mini");
    reveal_strlit("ultimate");
    assert(source_keys()[38] =~= "hagezi:native.xiaomi"@);
    assert(source_keys()[1] =~= "hagezi:normal"@);
    assert(source_keys()[38].take(8) =~= source_keys()[1].take(8));
    assert(lex_at(source_keys()[38], source_keys()[1], 8));
    assert(source_keys()[1] =~= "hagezi:normal"@);
    assert(source_keys()[33] =~= "hagezi:nosafesearch"@);
    assert(source_keys()[1].take(9) =~= source_keys()[33].take(9));
    assert(lex_at(source_keys()[1], source_keys()[33], 9));
    assert(source_keys()[33] =~= "hagezi:nosafesearch"@);
    assert(source_keys()[52] =~= "hagezi:nsfw"@);
    assert(source_keys()[33].take(8) =~= source_keys()[52].take(8));
    assert(lex_at(source_keys()[33], source_keys()[52], 8));
    assert(source_keys()[52] =~= "hagezi:nsfw"@);
    assert(source_keys()[5] =~= "hagezi:popupads"@);
    assert(source_keys()[52].take(7) =~= source_keys()[5].take(7));
    assert(lex_at(source_keys()[52], source_keys()[5], 7));
    assert(source_keys()[5] =~= "hagezi:popupads"@);
    assert(source_keys()[2] =~= "hagezi:pro"@);
    assert(source_keys()[5].take(8) =~= source_keys()[2].take(8));
    assert(lex_at(source_keys()[5], source_keys()[2], 8));
    assert(source_keys()[2] =~= "hagezi:pro"@);
    assert(source_keys()[3] =~= "hagezi:pro.plus"@);
    assert(source_keys()[2].take(10) =~= source_keys()[3].take(10));
    assert(lex_at(source_keys()[2], source_keys()[3], 10));
    assert(source_keys()[3] =~= "hagezi:pro.plus"@);
    assert(source_keys()[17] =~= "hagezi:tif"@);
    assert(source_keys()[3].take(7) =~= source_keys()[17].take(7));
    assert(lex_at(source_keys()[3], source_keys()[17], 7));
    assert(source_keys()[17] =~= "hagezi:tif"@);
    assert(source_keys()[18] =~= "hagezi:tif.medium"@);
    assert(source_keys()[17].take(10) =~= source_keys()[18].take(10));
    assert(lex_at(source_keys()[17], source_keys()[18], 10));
    assert(source_keys()[18] =~= "hagezi:tif.medium"@);
    assert(source_keys()[19] =~= "hagezi:tif.mini"@);
    assert(source_keys()[18].take(12) =~= source_keys()[19].take(12));
    assert(lex_at(source_keys()[18], source_keys()[19], 12));
    assert(source_keys()[19] =~= "hagezi:tif.mini"@);
    assert(source_keys()[4] =~= "hagezi:ultimate"@);
    assert(source_keys()[19].take(7) =~= source_keys()[4].take(7));
    assert(lex_at(source_keys()[19], source_keys()[4], 7));
}

/// keys 50 to 60 of `key_order` are each before the next
#[verifier::rlimit(100)]
#[verifier::spinoff_prover]
proof fn lemma_keys_in_order_5()
    ensures
        lex_before(source_keys()[4], source_keys()[7]),
        lex_before(source_keys()[7], source_keys()[53]),
        lex_before(source_keys()[53], source_keys()[6]),
        lex_before(source_keys()[6], source_keys()[10]),
        lex_before(source_keys()[10], source_keys()[20]),
        lex_before(source_keys()[20], source_keys()[54]),
        lex_before(source_keys()[54], source_keys()[45]),
        lex_before(source_keys()[45], source_keys()[12]),
        lex_before(source_keys()[12], source_keys()[8]),
        lex_before(source_keys()[8], source_keys()[21]),
{
    reveal_strlit("ads");
    reveal_strlit("big");
    reveal_strlit("extended");
    reveal_strlit("hagezi");
    reveal_strlit("hagezi:ultimate");
    reveal_strlit("hosts");
    reveal_strlit("nsfw");
    reveal_strlit("oisd");
    reveal_strlit("oisd:big");
    reveal_strlit("oisd:nsfw");
    reveal_strlit("oisd:small");
    reveal_strlit("peterlowe");
    reveal_strlit("peterlowe:ads");
    reveal_strlit("phishingarmy");
    reveal_strlit("phishingarmy:extended");
    reveal_strlit("porn");
    reveal_strlit("sinfonietta");
    reveal_strlit("sinfonietta:porn");
    reveal_strlit("sinfonietta:social");
    reveal_strlit("small");
    reveal_strlit("social");
    reveal_strlit("someonewhocares");
    reveal_strlit("someonewhocares:hosts");
    reveal_strlit("stevenblack");
    reveal_strlit("stevenblack:unified");
    reveal_strlit("ultimate");
    reveal_strlit("unified");
    reveal_strlit("urlhaus");
    reveal_strlit("urlhaus:hosts");
    assert(source_keys()[4] =~= "hagezi:ultimate"@);
    assert(source_keys()[7] =~= "oisd:big"@);
    assert(source_keys()[4].take(0) =~= source_keys()[7].take(0));
    assert(lex_at(source_keys()[4], source_keys()[7], 0));
    assert(source_keys()[7] =~= "oisd:big"@);
    assert(source_keys()[53] =~= "oisd:nsfw"@);
    assert(source_keys()[7].take(5) =~= source_keys()[53].take(5));
    assert(lex_at(source_keys()[7], source_keys()[53], 5));
    assert(source_keys()[53] =~= "oisd:nsfw"@);
    assert(source_keys()[6] =~= "oisd:small"@);
    assert(source_keys()[53].take(5) =~= source_keys()[6].take(5));
    assert(lex_at(source_keys()[53], source_keys()[6], 5));
    assert(source_keys()[6] =~= "oisd:small"@);
    assert(source_keys()[10] =~= "peterlowe:ads"@);
    assert(source_keys()[6].take(0) =~= source_keys()[10].take(0));
    assert(lex_at(source_keys()[6], source_keys()[10], 0));
    assert(source_keys()[10] =~= "peterlowe:ads"@);
    assert(source_keys()[20] =~= "phishingarmy:extended"@);
    assert(source_keys()[10].take(1) =~= source_keys()[20].take(1));
    assert(lex_at(source_keys()[10], source_keys()[20], 1));
    assert(source_keys()[20] =~= "phishingarmy:extended"@);
    assert(source_keys()[54] =~= "sinfonietta:porn"@);
    assert(source_keys()[20].take(0) =~= source_keys()[54].take(0));
    assert(lex_at(source_keys()[20], source_keys()[54], 0));
    assert(source_keys()[54] =~= "sinfonietta:porn"@);
    assert(source_keys()[45] =~= "sinfonietta:social"@);
    assert(source_keys()[54].take(12) =~= source_keys()[45].take(12));
    assert(lex_at(source_keys()[54], source_keys()[45], 12));
    assert(source_keys()[45] =~= "sinfonietta:social"@);
    assert(source_keys()[12] =~= "someonewhocares:hosts"@);
    assert(source_keys()[45].take(1) =~= source_keys()[12].take(1));
    assert(lex_at(source_keys()[45], source_keys()[12], 1));
    assert(source_keys()[12] =~= "someonewhocares:hosts"@);
    assert(source_keys()[8] =~= "stevenblack:unified"@);
    assert(source_keys()[12].take(1) =~= source_keys()[8].take(1));
    assert(lex_at(source_keys()[12], source_keys()[8], 1));
    assert(source_keys()[8] =~= "stevenblack:unified"@);
    assert(source_keys()[21] =~= "urlhaus:hosts"@);
    assert(source_keys()[8].take(0) =~= source_keys()[21].take(0));
    assert(lex_at(source_keys()[8], source_keys()[21], 0));
}

/// No two lists of the catalogue share a key: in the dictionary order of
/// their keys each comes strictly before the next.
#[verifier::rlimit(100)]
#[verifier::spinoff_prover]
pub proof fn lemma_source_keys_distinct()
    ensures
        source_keys().no_duplicates(),
{
    assert(source_table().len() == 61);
    lemma_keys_in_order_0();
    lemma_keys_in_order_1();
    lemma_keys_in_order_2();
    lemma_keys_in_order_3();
    lemma_keys_in_order_4();
    lemma_keys_in_order_5();
    let s = Seq::new(61, |k: int| source_keys()[key_order(k)]);
    assert forall|k: int| #![trigger s[k]] 0 <= k < s.len() - 1 implies lex_before(s[k], s[k + 1]) by {
        if k == 0 {
            assert(lex_before(source_keys()[11], source_keys()[9]));
        }
        if k == 1 {
            assert(lex_before(source_keys()[9], source_keys()[27]));
        }
        if k == 2 {
            assert(lex_before(source_keys()[27], source_keys()[13]));
        }
        if k == 3 {
            assert(lex_before(source_keys()[13], source_keys()[30]));
        }
        if k == 4 {
            assert(lex_before(source_keys()[30], source_keys()[59]));
        }
        if k == 5 {
            assert(lex_before(source_keys()[59], source_keys()[46]));
        }
        if k == 6 {
            assert(lex_before(source_keys()[46], source_keys()[26]));
        }
        if k == 7 {
            assert(lex_before(source_keys()[26], source_keys()[51]));
        }
        if k == 8 {
            assert(lex_before(source_keys()[51], source_keys()[22]));
        }
        if k == 9 {
            assert(lex_before(source_keys()[22], source_keys()[23]));
        }
        if k == 10 {
            assert(lex_before(source_keys()[23], source_keys()[57]));
        }
        if k == 11 {
            assert(lex_before(source_keys()[57], source_keys()[55]));
        }
        if k == 12 {
            assert(lex_before(source_keys()[55], source_keys()[24]));
        }
        if k == 13 {
            assert(lex_before(source_keys()[24], source_keys()[29]));
        }
        if k == 14 {
            assert(lex_before(source_keys()[29], source_keys()[25]));
        }
        if k == 15 {
            assert(lex_before(source_keys()[25], source_keys()[47]));
        }
        if k == 16 {
            assert(lex_before(source_keys()[47], source_keys()[58]));
        }
        if k == 17 {
            assert(lex_before(source_keys()[58], source_keys()[16]));
        }
        if k == 18 {
            assert(lex_before(source_keys()[16], source_keys()[60]));
        }
        if k == 19 {
            assert(lex_before(source_keys()[60], source_keys()[48]));
        }
        if k == 20 {
            assert(lex_before(source_keys()[48], source_keys()[15]));
        }
        if k == 21 {
            assert(lex_before(source_keys()[15], source_keys()[14]));
        }
        if k == 22 {
            assert(lex_before(source_keys()[14], source_keys()[56]));
        }
        if k == 23 {
            assert(lex_before(source_keys()[56], source_keys()[31]));
        }
        if k == 24 {
            assert(lex_before(source_keys()[31], source_keys()[32]));
        }
        if k == 25 {
            assert(lex_before(source_keys()[32], source_keys()[28]));
        }
        if k == 26 {
            assert(lex_before(source_keys()[28], source_keys()[49]));
        }
        if k == 27 {
            assert(lex_before(source_keys()[49], source_keys()[50]));
        }
        if k == 28 {
            assert(lex_before(source_keys()[50], source_keys()[0]));
        }
        if k == 29 {
            assert(lex_before(source_keys()[0], source_keys()[36]));
        }
        if k == 30 {
            assert(lex_before(source_keys()[36], source_keys()[35]));
        }
        if k == 31 {
            assert(lex_before(source_keys()[35], source_keys()[39]));
        }
        if k == 32 {
            assert(lex_before(source_keys()[39], source_keys()[41]));
        }
        if k == 33 {
            assert(lex_before(source_keys()[41], source_keys()[44]));
        }
        if k == 34 {
            assert(lex_before(source_keys()[44], source_keys()[42]));
        }
        if k == 35 {
            assert(lex_before(source_keys()[42], source_keys()[37]));
        }
        if k == 36 {
            assert(lex_before(source_keys()[37], source_keys()[40]));
        }
        if k == 37 {
            assert(lex_before(source_keys()[40], source_keys()[43]));
        }
        if k == 38 {
            assert(lex_before(source_keys()[43], source_keys()[34]));
        }
        if k == 39 {
            assert(lex_before(source_keys()[34], source_keys()[38]));
        }
        if k == 40 {
            assert(lex_before(source_keys()[38], source_keys()[1]));
        }
        if k == 41 {
            assert(lex_before(source_keys()[1], source_keys()[33]));
        }
        if k == 42 {
            assert(lex_before(source_keys()[33], source_keys()[52]));
        }
        if k == 43 {
            assert(lex_before(source_keys()[52], source_keys()[5]));
        }
        if k == 44 {
            assert(lex_before(source_keys()[5], source_keys()[2]));
        }
        if k == 45 {
            assert(lex_before(source_keys()[2], source_keys()[3]));
        }
        if k == 46 {
            assert(lex_before(source_keys()[3], source_keys()[17]));
        }
        if k == 47 {
            assert(lex_before(source_keys()[17], source_keys()[18]));
        }
        if k == 48 {
            assert(lex_before(source_keys()[18], source_keys()[19]));
        }
        if k == 49 {
            assert(lex_before(source_keys()[19], source_keys()[4]));
        }
        if k == 50 {
            assert(lex_before(source_keys()[4], source_keys()[7]));
        }
        if k == 51 {
            assert(lex_before(source_keys()[7], source_keys()[53]));
        }
        if k == 52 {
            assert(lex_before(source_keys()[53], source_keys()[6]));
        }
        if k == 53 {
            assert(lex_before(source_keys()[6], source_keys()[10]));
        }
        if k == 54 {
            assert(lex_before(source_keys()[10], source_keys()[20]));
        }
        if k == 55 {
            assert(lex_before(source_keys()[20], source_keys()[54]));
        }
        if k == 56 {
            assert(lex_before(source_keys()[54], source_keys()[45]));
        }
        if k == 57 {
            assert(lex_before(source_keys()[45], source_keys()[12]));
        }
        if k == 58 {
            assert(lex_before(source_keys()[12], source_keys()[8]));
        }
        if k == 59 {
            assert(lex_before(source_keys()[8], source_keys()[21]));
        }
    }
    assert forall|i: int| 0 <= i < 61 implies 0 <= #[trigger] key_rank(i) < 61 && key_order(key_rank(i)) == i by {
        if i == 0 {
            assert(key_order(29) == 0);
        }
        if i == 1 {
            assert(key_order(41) == 1);
        }
        if i == 2 {
            assert(key_order(45) == 2);
        }
        if i == 3 {
            assert(key_order(46) == 3);
        }
        if i == 4 {
            assert(key_order(50) == 4);
        }
        if i == 5 {
            assert(key_order(44) == 5);
        }
        if i == 6 {
            assert(key_order(53) == 6);
        }
        if i == 7 {
            assert(key_order(51) == 7);
        }
        if i == 8 {
            assert(key_order(59) == 8);
        }
        if i == 9 {
            assert(key_order(1) == 9);
        }
        if i == 10 {
            assert(key_order(54) == 10);
        }
        if i == 11 {
            assert(key_order(0) == 11);
        }
        if i == 12 {
            assert(key_order(58) == 12);
        }
        if i == 13 {
            assert(key_order(3) == 13);
        }
        if i == 14 {
            assert(key_order(22) == 14);
        }
        if i == 15 {
            assert(key_order(21) == 15);
        }
        if i == 16 {
            assert(key_order(18) == 16);
        }
        if i == 17 {
            assert(key_order(47) == 17);
        }
        if i == 18 {
            assert(key_order(48) == 18);
        }
        if i == 19 {
            assert(key_order(49) == 19);
        }
        if i == 20 {
            assert(key_order(55) == 20);
        }
        if i == 21 {
            assert(key_order(60) == 21);
        }
        if i == 22 {
            assert(key_order(9) == 22);
        }
        if i == 23 {
            assert(key_order(10) == 23);
        }
        if i == 24 {
            assert(key_order(13) == 24);
        }
        if i == 25 {
            assert(key_order(15) == 25);
        }
        if i == 26 {
            assert(key_order(7) == 26);
        }
        if i == 27 {
            assert(key_order(2) == 27);
        }
        if i == 28 {
            assert(key_order(26) == 28);
        }
        if i == 29 {
            assert(key_order(14) == 29);
        }
        if i == 30 {
            assert(key_order(4) == 30);
        }
        if i == 31 {
            assert(key_order(24) == 31);
        }
        if i == 32 {
            assert(key_order(25) == 32);
        }
        if i == 33 {
            assert(key_order(42) == 33);
        }
        if i == 34 {
            assert(key_order(39) == 34);
        }
        if i == 35 {
            assert(key_order(31) == 35);
        }
        if i == 36 {
            assert(key_order(30) == 36);
        }
        if i == 37 {
            assert(key_order(36) == 37);
        }
        if i == 38 {
            assert(key_order(40) == 38);
        }
        if i == 39 {
            assert(key_order(32) == 39);
        }
        if i == 40 {
            assert(key_order(37) == 40);
        }
        if i == 41 {
            assert(key_order(33) == 41);
        }
        if i == 42 {
            assert(key_order(35) == 42);
        }
        if i == 43 {
            assert(key_order(38) == 43);
        }
        if i == 44 {
            assert(key_order(34) == 44);
        }
        if i == 45 {
            assert(key_order(57) == 45);
        }
        if i == 46 {
            assert(key_order(6) == 46);
        }
        if i == 47 {
            assert(key_order(16) == 47);
        }
        if i == 48 {
            assert(key_order(20) == 48);
        }
        if i == 49 {
            assert(key_order(27) == 49);
        }
        if i == 50 {
            assert(key_order(28) == 50);
        }
        if i == 51 {
            assert(key_order(8) == 51);
        }
        if i == 52 {
            assert(key_order(43) == 52);
        }
        if i == 53 {
            assert(key_order(52) == 53);
        }
        if i == 54 {
            assert(key_order(56) == 54);
        }
        if i == 55 {
            assert(key_order(12) == 55);
        }
        if i == 56 {
            assert(key_order(23) == 56);
        }
        if i == 57 {
            assert(key_order(11) == 57);
        }
        if i == 58 {
            assert(key_order(17) == 58);
        }
        if i == 59 {
            assert(key_order(5) == 59);
        }
        if i == 60 {
            assert(key_order(19) == 60);
        }
    }
    assert forall|i: int, j: int| 0 <= i < 61 && 0 <= j < 61 && i != j implies source_keys()[i] != source_keys()[j] by {
        let (ri, rj) = (key_rank(i), key_rank(j));
        assert(s[ri] == source_keys()[i]);
        assert(s[rj] == source_keys()[j]);
        if ri < rj {
            lemma_lex_chain(s, ri, rj);
            lemma_lex_before_differ(s[ri], s[rj]);
        } else {
            lemma_lex_chain(s, rj, ri);
            lemma_lex_before_differ(s[rj], s[ri]);
        }
    }
}

} // verus!
