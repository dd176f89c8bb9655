//! The catalogue: every downloadable list, and the categories that turn
//! lists on.
use vstd::prelude::*;

verus! {

/// One downloadable list. `id` is the maintainer and `level` the flavour —
/// together the `id:level` key of the config and the CLI — and `category`
/// is the kind of thing it blocks.
#[derive(Debug, Clone, Copy)]
pub struct Source {
    pub id: &'static str,
    pub level: &'static str,
    pub category: &'static str,
    pub url: &'static str,
    pub about: &'static str,
}

/// The lists in the catalogue, in the order they are shown.
pub open spec fn source_table() -> Seq<Source> {
    seq![
        Source { id: "hagezi", level: "light", category: "ads", url: "https://raw.githubusercontent.com/hagezi/dns-blocklists/main/wildcard/light-onlydomains.txt", about: "ads + trackers, size-optimised, near-zero breakage" },
        Source { id: "hagezi", level: "normal", category: "ads", url: "https://raw.githubusercontent.com/hagezi/dns-blocklists/main/wildcard/multi-onlydomains.txt", about: "ads, trackers, telemetry, some badware" },
        Source { id: "hagezi", level: "pro", category: "ads", url: "https://raw.githubusercontent.com/hagezi/dns-blocklists/main/wildcard/pro-onlydomains.txt", about: "ads, trackers, telemetry, badware — the recommended default" },
        Source { id: "hagezi", level: "pro.plus", category: "ads", url: "https://raw.githubusercontent.com/hagezi/dns-blocklists/main/wildcard/pro.plus-onlydomains.txt", about: "pro, plus aggressive tracking and telemetry" },
        Source { id: "hagezi", level: "ultimate", category: "ads", url: "https://raw.githubusercontent.com/hagezi/dns-blocklists/main/wildcard/ultimate-onlydomains.txt", about: "maximum coverage — expect to need the allowlist" },
        Source { id: "hagezi", level: "popupads", category: "ads", url: "https://raw.githubusercontent.com/hagezi/dns-blocklists/main/wildcard/popupads-onlydomains.txt", about: "pop-up ads and redirect chains" },
        Source { id: "oisd", level: "small", category: "ads", url: "https://small.oisd.nl/domainswild2", about: "ads + trackers, tuned hard against false positives" },
        Source { id: "oisd", level: "big", category: "ads", url: "https://big.oisd.nl/domainswild2", about: "ads, trackers, malware, phishing, scam" },
        Source { id: "stevenblack", level: "unified", category: "ads", url: "https://raw.githubusercontent.com/StevenBlack/hosts/master/hosts", about: "the classic unified hosts list: ads + malware" },
        Source { id: "adguard", level: "dns", category: "ads", url: "https://adguardteam.github.io/HostlistsRegistry/assets/filter_1.txt", about: "AdGuard's own DNS filter: ads + trackers" },
        Source { id: "peterlowe", level: "ads", category: "ads", url: "https://pgl.yoyo.org/adservers/serverlist.php?hostformat=hosts&showintro=0&mimetype=plaintext", about: "Peter Lowe's ad and tracking server list" },
        Source { id: "adaway", level: "hosts", category: "ads", url: "https://adaway.org/hosts.txt", about: "AdAway: mobile ad servers" },
        Source { id: "someonewhocares", level: "hosts", category: "ads", url: "https://someonewhocares.org/hosts/zero/hosts", about: "Dan Pollock's hosts file" },
        Source { id: "blocklistproject", level: "ads", category: "ads", url: "https://raw.githubusercontent.com/blocklistproject/Lists/master/ads.txt", about: "The Blocklist Project: ad servers" },
        Source { id: "frogeye", level: "multiparty", category: "tracking", url: "https://hostfiles.frogeye.fr/multiparty-trackers-hosts.txt", about: "third-party trackers, resolved from the filter lists" },
        Source { id: "frogeye", level: "firstparty", category: "tracking", url: "https://hostfiles.frogeye.fr/firstparty-trackers-hosts.txt", about: "CNAME-cloaked first-party trackers — no other list has these" },
        Source { id: "blocklistproject", level: "tracking", category: "tracking", url: "https://raw.githubusercontent.com/blocklistproject/Lists/master/tracking.txt", about: "The Blocklist Project: trackers" },
        Source { id: "hagezi", level: "tif", category: "phishing", url: "https://raw.githubusercontent.com/hagezi/dns-blocklists/main/wildcard/tif-onlydomains.txt", about: "threat intelligence: malware, phishing, scam, cryptojacking" },
        Source { id: "hagezi", level: "tif.medium", category: "phishing", url: "https://raw.githubusercontent.com/hagezi/dns-blocklists/main/wildcard/tif.medium-onlydomains.txt", about: "threat intelligence, medium — fewer false positives" },
        Source { id: "hagezi", level: "tif.mini", category: "phishing", url: "https://raw.githubusercontent.com/hagezi/dns-blocklists/main/wildcard/tif.mini-onlydomains.txt", about: "threat intelligence, minimal" },
        Source { id: "phishingarmy", level: "extended", category: "phishing", url: "https://phishing.army/download/phishing_army_blocklist_extended.txt", about: "Phishing Army: active phishing domains" },
        Source { id: "urlhaus", level: "hosts", category: "phishing", url: "https://urlhaus.abuse.ch/downloads/hostfile/", about: "abuse.ch URLhaus: hosts distributing malware" },
        Source { id: "blocklistproject", level: "malware", category: "phishing", url: "https://raw.githubusercontent.com/blocklistproject/Lists/master/malware.txt", about: "The Blocklist Project: malware" },
        Source { id: "blocklistproject", level: "phishing", category: "phishing", url: "https://raw.githubusercontent.com/blocklistproject/Lists/master/phishing.txt", about: "The Blocklist Project: phishing" },
        Source { id: "blocklistproject", level: "ransomware", category: "phishing", url: "https://raw.githubusercontent.com/blocklistproject/Lists/master/ransomware.txt", about: "The Blocklist Project: ransomware" },
        Source { id: "blocklistproject", level: "scam", category: "phishing", url: "https://raw.githubusercontent.com/blocklistproject/Lists/master/scam.txt", about: "The Blocklist Project: scams" },
        Source { id: "blocklistproject", level: "fraud", category: "phishing", url: "https://raw.githubusercontent.com/blocklistproject/Lists/master/fraud.txt", about: "The Blocklist Project: fraud" },
        Source { id: "blocklistproject", level: "abuse", category: "phishing", url: "https://raw.githubusercontent.com/blocklistproject/Lists/master/abuse.txt", about: "The Blocklist Project: abuse and reported hosts" },
        Source { id: "hagezi", level: "fake", category: "fake", url: "https://raw.githubusercontent.com/hagezi/dns-blocklists/main/wildcard/fake-onlydomains.txt", about: "fake shops, fake streaming, fake support" },
        Source { id: "blocklistproject", level: "redirect", category: "fake", url: "https://raw.githubusercontent.com/blocklistproject/Lists/master/redirect.txt", about: "The Blocklist Project: redirect and doorway pages" },
        Source { id: "blocklistproject", level: "crypto", category: "crypto", url: "https://raw.githubusercontent.com/blocklistproject/Lists/master/crypto.txt", about: "cryptojacking and mining pools" },
        Source { id: "hagezi", level: "doh", category: "dns-bypass", url: "https://raw.githubusercontent.com/hagezi/dns-blocklists/main/wildcard/doh-vpn-proxy-bypass-onlydomains.txt", about: "DoH / VPN / proxy endpoints used to bypass DNS filtering" },
        Source { id: "hagezi", level: "dyndns", category: "dns-bypass", url: "https://raw.githubusercontent.com/hagezi/dns-blocklists/main/wildcard/dyndns-onlydomains.txt", about: "dynamic DNS providers, commonly used to evade filtering" },
        Source { id: "hagezi", level: "nosafesearch", category: "dns-bypass", url: "https://raw.githubusercontent.com/hagezi/dns-blocklists/main/wildcard/nosafesearch-onlydomains.txt", about: "endpoints that let a browser skip enforced safe search" },
        Source { id: "hagezi", level: "native.winoffice", category: "telemetry", url: "https://raw.githubusercontent.com/hagezi/dns-blocklists/main/wildcard/native.winoffice-onlydomains.txt", about: "Windows / Office telemetry endpoints" },
        Source { id: "hagezi", level: "native.apple", category: "telemetry", url: "https://raw.githubusercontent.com/hagezi/dns-blocklists/main/wildcard/native.apple-onlydomains.txt", about: "Apple device telemetry endpoints" },
        Source { id: "hagezi", level: "native.amazon", category: "telemetry", url: "https://raw.githubusercontent.com/hagezi/dns-blocklists/main/wildcard/native.amazon-onlydomains.txt", about: "Amazon device telemetry endpoints" },
        Source { id: "hagezi", level: "native.samsung", category: "telemetry", url: "https://raw.githubusercontent.com/hagezi/dns-blocklists/main/wildcard/native.samsung-onlydomains.txt", about: "Samsung device telemetry endpoints" },
        Source { id: "hagezi", level: "native.xiaomi", category: "telemetry", url: "https://raw.githubusercontent.com/hagezi/dns-blocklists/main/wildcard/native.xiaomi-onlydomains.txt", about: "Xiaomi device telemetry endpoints" },
        Source { id: "hagezi", level: "native.huawei", category: "telemetry", url: "https://raw.githubusercontent.com/hagezi/dns-blocklists/main/wildcard/native.huawei-onlydomains.txt", about: "Huawei device telemetry endpoints" },
        Source { id: "hagezi", level: "native.tiktok", category: "telemetry", url: "https://raw.githubusercontent.com/hagezi/dns-blocklists/main/wildcard/native.tiktok-onlydomains.txt", about: "TikTok's own telemetry endpoints" },
        Source { id: "hagezi", level: "native.lgwebos", category: "telemetry", url: "https://raw.githubusercontent.com/hagezi/dns-blocklists/main/wildcard/native.lgwebos-onlydomains.txt", about: "LG webOS TV telemetry endpoints" },
        Source { id: "hagezi", level: "native.roku", category: "telemetry", url: "https://raw.githubusercontent.com/hagezi/dns-blocklists/main/wildcard/native.roku-onlydomains.txt", about: "Roku telemetry endpoints" },
        Source { id: "hagezi", level: "native.vivo", category: "telemetry", url: "https://raw.githubusercontent.com/hagezi/dns-blocklists/main/wildcard/native.vivo-onlydomains.txt", about: "Vivo device telemetry endpoints" },
        Source { id: "hagezi", level: "native.oppo-realme", category: "telemetry", url: "https://raw.githubusercontent.com/hagezi/dns-blocklists/main/wildcard/native.oppo-realme-onlydomains.txt", about: "Oppo / Realme device telemetry endpoints" },
        Source { id: "sinfonietta", level: "social", category: "social", url: "https://raw.githubusercontent.com/Sinfonietta/hostfiles/master/social-hosts", about: "social networks" },
        Source { id: "blocklistproject", level: "facebook", category: "social", url: "https://raw.githubusercontent.com/blocklistproject/Lists/master/facebook.txt", about: "Facebook and Meta properties" },
        Source { id: "blocklistproject", level: "tiktok", category: "social", url: "https://raw.githubusercontent.com/blocklistproject/Lists/master/tiktok.txt", about: "TikTok" },
        Source { id: "blocklistproject", level: "youtube", category: "social", url: "https://raw.githubusercontent.com/blocklistproject/Lists/master/youtube.txt", about: "YouTube" },
        Source { id: "hagezi", level: "gambling", category: "gambling", url: "https://raw.githubusercontent.com/hagezi/dns-blocklists/main/wildcard/gambling-onlydomains.txt", about: "gambling and betting" },
        Source { id: "hagezi", level: "gambling.medium", category: "gambling", url: "https://raw.githubusercontent.com/hagezi/dns-blocklists/main/wildcard/gambling.medium-onlydomains.txt", about: "gambling and betting, medium" },
        Source { id: "blocklistproject", level: "gambling", category: "gambling", url: "https://raw.githubusercontent.com/blocklistproject/Lists/master/gambling.txt", about: "The Blocklist Project: gambling" },
        Source { id: "hagezi", level: "nsfw", category: "porn", url: "https://raw.githubusercontent.com/hagezi/dns-blocklists/main/wildcard/nsfw-onlydomains.txt", about: "pornography" },
        Source { id: "oisd", level: "nsfw", category: "porn", url: "https://nsfw.oisd.nl/domainswild2", about: "pornography, oisd's list" },
        Source { id: "sinfonietta", level: "porn", category: "porn", url: "https://raw.githubusercontent.com/Sinfonietta/hostfiles/master/pornography-hosts", about: "pornography, Sinfonietta's list" },
        Source { id: "blocklistproject", level: "porn", category: "porn", url: "https://raw.githubusercontent.com/blocklistproject/Lists/master/porn.txt", about: "The Blocklist Project: pornography" },
        Source { id: "hagezi", level: "anti.piracy", category: "piracy", url: "https://raw.githubusercontent.com/hagezi/dns-blocklists/main/wildcard/anti.piracy-onlydomains.txt", about: "piracy and warez sites" },
        Source { id: "blocklistproject", level: "piracy", category: "piracy", url: "https://raw.githubusercontent.com/blocklistproject/Lists/master/piracy.txt", about: "The Blocklist Project: piracy" },
        Source { id: "blocklistproject", level: "torrent", category: "piracy", url: "https://raw.githubusercontent.com/blocklistproject/Lists/master/torrent.txt", about: "The Blocklist Project: torrent trackers and indexes" },
        Source { id: "blocklistproject", level: "drugs", category: "drugs", url: "https://raw.githubusercontent.com/blocklistproject/Lists/master/drugs.txt", about: "drug marketplaces" },
        Source { id: "blocklistproject", level: "vaping", category: "drugs", url: "https://raw.githubusercontent.com/blocklistproject/Lists/master/vaping.txt", about: "vaping and e-cigarette shops" },
    ]
}

/// The catalogue, as a list (`source_table`).
pub fn sources() -> (v: Vec<Source>)
    ensures
        v@ == source_table(),
{
    let v = vec![
        Source { id: "hagezi", level: "light", category: "ads", url: "https://raw.githubusercontent.com/hagezi/dns-blocklists/main/wildcard/light-onlydomains.txt", about: "ads + trackers, size-optimised, near-zero breakage" },
        Source { id: "hagezi", level: "normal", category: "ads", url: "https://raw.githubusercontent.com/hagezi/dns-blocklists/main/wildcard/multi-onlydomains.txt", about: "ads, trackers, telemetry, some badware" },
        Source { id: "hagezi", level: "pro", category: "ads", url: "https://raw.githubusercontent.com/hagezi/dns-blocklists/main/wildcard/pro-onlydomains.txt", about: "ads, trackers, telemetry, badware — the recommended default" },
        Source { id: "hagezi", level: "pro.plus", category: "ads", url: "https://raw.githubusercontent.com/hagezi/dns-blocklists/main/wildcard/pro.plus-onlydomains.txt", about: "pro, plus aggressive tracking and telemetry" },
        Source { id: "hagezi", level: "ultimate", category: "ads", url: "https://raw.githubusercontent.com/hagezi/dns-blocklists/main/wildcard/ultimate-onlydomains.txt", about: "maximum coverage — expect to need the allowlist" },
        Source { id: "hagezi", level: "popupads", category: "ads", url: "https://raw.githubusercontent.com/hagezi/dns-blocklists/main/wildcard/popupads-onlydomains.txt", about: "pop-up ads and redirect chains" },
        Source { id: "oisd", level: "small", category: "ads", url: "https://small.oisd.nl/domainswild2", about: "ads + trackers, tuned hard against false positives" },
        Source { id: "oisd", level: "big", category: "ads", url: "https://big.oisd.nl/domainswild2", about: "ads, trackers, malware, phishing, scam" },
        Source { id: "stevenblack", level: "unified", category: "ads", url: "https://raw.githubusercontent.com/StevenBlack/hosts/master/hosts", about: "the classic unified hosts list: ads + malware" },
        Source { id: "adguard", level: "dns", category: "ads", url: "https://adguardteam.github.io/HostlistsRegistry/assets/filter_1.txt", about: "AdGuard's own DNS filter: ads + trackers" },
        Source { id: "peterlowe", level: "ads", category: "ads", url: "https://pgl.yoyo.org/adservers/serverlist.php?hostformat=hosts&showintro=0&mimetype=plaintext", about: "Peter Lowe's ad and tracking server list" },
        Source { id: "adaway", level: "hosts", category: "ads", url: "https://adaway.org/hosts.txt", about: "AdAway: mobile ad servers" },
        Source { id: "someonewhocares", level: "hosts", category: "ads", url: "https://someonewhocares.org/hosts/zero/hosts", about: "Dan Pollock's hosts file" },
        Source { id: "blocklistproject", level: "ads", category: "ads", url: "https://raw.githubusercontent.com/blocklistproject/Lists/master/ads.txt", about: "The Blocklist Project: ad servers" },
        Source { id: "frogeye", level: "multiparty", category: "tracking", url: "https://hostfiles.frogeye.fr/multiparty-trackers-hosts.txt", about: "third-party trackers, resolved from the filter lists" },
        Source { id: "frogeye", level: "firstparty", category: "tracking", url: "https://hostfiles.frogeye.fr/firstparty-trackers-hosts.txt", about: "CNAME-cloaked first-party trackers — no other list has these" },
        Source { id: "blocklistproject", level: "tracking", category: "tracking", url: "https://raw.githubusercontent.com/blocklistproject/Lists/master/tracking.txt", about: "The Blocklist Project: trackers" },
        Source { id: "hagezi", level: "tif", category: "phishing", url: "https://raw.githubusercontent.com/hagezi/dns-blocklists/main/wildcard/tif-onlydomains.txt", about: "threat intelligence: malware, phishing, scam, cryptojacking" },
        Source { id: "hagezi", level: "tif.medium", category: "phishing", url: "https://raw.githubusercontent.com/hagezi/dns-blocklists/main/wildcard/tif.medium-onlydomains.txt", about: "threat intelligence, medium — fewer false positives" },
        Source { id: "hagezi", level: "tif.mini", category: "phishing", url: "https://raw.githubusercontent.com/hagezi/dns-blocklists/main/wildcard/tif.mini-onlydomains.txt", about: "threat intelligence, minimal" },
        Source { id: "phishingarmy", level: "extended", category: "phishing", url: "https://phishing.army/download/phishing_army_blocklist_extended.txt", about: "Phishing Army: active phishing domains" },
        Source { id: "urlhaus", level: "hosts", category: "phishing", url: "https://urlhaus.abuse.ch/downloads/hostfile/", about: "abuse.ch URLhaus: hosts distributing malware" },
        Source { id: "blocklistproject", level: "malware", category: "phishing", url: "https://raw.githubusercontent.com/blocklistproject/Lists/master/malware.txt", about: "The Blocklist Project: malware" },
        Source { id: "blocklistproject", level: "phishing", category: "phishing", url: "https://raw.githubusercontent.com/blocklistproject/Lists/master/phishing.txt", about: "The Blocklist Project: phishing" },
        Source { id: "blocklistproject", level: "ransomware", category: "phishing", url: "https://raw.githubusercontent.com/blocklistproject/Lists/master/ransomware.txt", about: "The Blocklist Project: ransomware" },
        Source { id: "blocklistproject", level: "scam", category: "phishing", url: "https://raw.githubusercontent.com/blocklistproject/Lists/master/scam.txt", about: "The Blocklist Project: scams" },
        Source { id: "blocklistproject", level: "fraud", category: "phishing", url: "https://raw.githubusercontent.com/blocklistproject/Lists/master/fraud.txt", about: "The Blocklist Project: fraud" },
        Source { id: "blocklistproject", level: "abuse", category: "phishing", url: "https://raw.githubusercontent.com/blocklistproject/Lists/master/abuse.txt", about: "The Blocklist Project: abuse and reported hosts" },
        Source { id: "hagezi", level: "fake", category: "fake", url: "https://raw.githubusercontent.com/hagezi/dns-blocklists/main/wildcard/fake-onlydomains.txt", about: "fake shops, fake streaming, fake support" },
        Source { id: "blocklistproject", level: "redirect", category: "fake", url: "https://raw.githubusercontent.com/blocklistproject/Lists/master/redirect.txt", about: "The Blocklist Project: redirect and doorway pages" },
        Source { id: "blocklistproject", level: "crypto", category: "crypto", url: "https://raw.githubusercontent.com/blocklistproject/Lists/master/crypto.txt", about: "cryptojacking and mining pools" },
        Source { id: "hagezi", level: "doh", category: "dns-bypass", url: "https://raw.githubusercontent.com/hagezi/dns-blocklists/main/wildcard/doh-vpn-proxy-bypass-onlydomains.txt", about: "DoH / VPN / proxy endpoints used to bypass DNS filtering" },
        Source { id: "hagezi", level: "dyndns", category: "dns-bypass", url: "https://raw.githubusercontent.com/hagezi/dns-blocklists/main/wildcard/dyndns-onlydomains.txt", about: "dynamic DNS providers, commonly used to evade filtering" },
        Source { id: "hagezi", level: "nosafesearch", category: "dns-bypass", url: "https://raw.githubusercontent.com/hagezi/dns-blocklists/main/wildcard/nosafesearch-onlydomains.txt", about: "endpoints that let a browser skip enforced safe search" },
        Source { id: "hagezi", level: "native.winoffice", category: "telemetry", url: "https://raw.githubusercontent.com/hagezi/dns-blocklists/main/wildcard/native.winoffice-onlydomains.txt", about: "Windows / Office telemetry endpoints" },
        Source { id: "hagezi", level: "native.apple", category: "telemetry", url: "https://raw.githubusercontent.com/hagezi/dns-blocklists/main/wildcard/native.apple-onlydomains.txt", about: "Apple device telemetry endpoints" },
        Source { id: "hagezi", level: "native.amazon", category: "telemetry", url: "https://raw.githubusercontent.com/hagezi/dns-blocklists/main/wildcard/native.amazon-onlydomains.txt", about: "Amazon device telemetry endpoints" },
        Source { id: "hagezi", level: "native.samsung", category: "telemetry", url: "https://raw.githubusercontent.com/hagezi/dns-blocklists/main/wildcard/native.samsung-onlydomains.txt", about: "Samsung device telemetry endpoints" },
        Source { id: "hagezi", level: "native.xiaomi", category: "telemetry", url: "https://raw.githubusercontent.com/hagezi/dns-blocklists/main/wildcard/native.xiaomi-onlydomains.txt", about: "Xiaomi device telemetry endpoints" },
        Source { id: "hagezi", level: "native.huawei", category: "telemetry", url: "https://raw.githubusercontent.com/hagezi/dns-blocklists/main/wildcard/native.huawei-onlydomains.txt", about: "Huawei device telemetry endpoints" },
        Source { id: "hagezi", level: "native.tiktok", category: "telemetry", url: "https://raw.githubusercontent.com/hagezi/dns-blocklists/main/wildcard/native.tiktok-onlydomains.txt", about: "TikTok's own telemetry endpoints" },
        Source { id: "hagezi", level: "native.lgwebos", category: "telemetry", url: "https://raw.githubusercontent.com/hagezi/dns-blocklists/main/wildcard/native.lgwebos-onlydomains.txt", about: "LG webOS TV telemetry endpoints" },
        Source { id: "hagezi", level: "native.roku", category: "telemetry", url: "https://raw.githubusercontent.com/hagezi/dns-blocklists/main/wildcard/native.roku-onlydomains.txt", about: "Roku telemetry endpoints" },
        Source { id: "hagezi", level: "native.vivo", category: "telemetry", url: "https://raw.githubusercontent.com/hagezi/dns-blocklists/main/wildcard/native.vivo-onlydomains.txt", about: "Vivo device telemetry endpoints" },
        Source { id: "hagezi", level: "native.oppo-realme", category: "telemetry", url: "https://raw.githubusercontent.com/hagezi/dns-blocklists/main/wildcard/native.oppo-realme-onlydomains.txt", about: "Oppo / Realme device telemetry endpoints" },
        Source { id: "sinfonietta", level: "social", category: "social", url: "https://raw.githubusercontent.com/Sinfonietta/hostfiles/master/social-hosts", about: "social networks" },
        Source { id: "blocklistproject", level: "facebook", category: "social", url: "https://raw.githubusercontent.com/blocklistproject/Lists/master/facebook.txt", about: "Facebook and Meta properties" },
        Source { id: "blocklistproject", level: "tiktok", category: "social", url: "https://raw.githubusercontent.com/blocklistproject/Lists/master/tiktok.txt", about: "TikTok" },
        Source { id: "blocklistproject", level: "youtube", category: "social", url: "https://raw.githubusercontent.com/blocklistproject/Lists/master/youtube.txt", about: "YouTube" },
        Source { id: "hagezi", level: "gambling", category: "gambling", url: "https://raw.githubusercontent.com/hagezi/dns-blocklists/main/wildcard/gambling-onlydomains.txt", about: "gambling and betting" },
        Source { id: "hagezi", level: "gambling.medium", category: "gambling", url: "https://raw.githubusercontent.com/hagezi/dns-blocklists/main/wildcard/gambling.medium-onlydomains.txt", about: "gambling and betting, medium" },
        Source { id: "blocklistproject", level: "gambling", category: "gambling", url: "https://raw.githubusercontent.com/blocklistproject/Lists/master/gambling.txt", about: "The Blocklist Project: gambling" },
        Source { id: "hagezi", level: "nsfw", category: "porn", url: "https://raw.githubusercontent.com/hagezi/dns-blocklists/main/wildcard/nsfw-onlydomains.txt", about: "pornography" },
        Source { id: "oisd", level: "nsfw", category: "porn", url: "https://nsfw.oisd.nl/domainswild2", about: "pornography, oisd's list" },
        Source { id: "sinfonietta", level: "porn", category: "porn", url: "https://raw.githubusercontent.com/Sinfonietta/hostfiles/master/pornography-hosts", about: "pornography, Sinfonietta's list" },
        Source { id: "blocklistproject", level: "porn", category: "porn", url: "https://raw.githubusercontent.com/blocklistproject/Lists/master/porn.txt", about: "The Blocklist Project: pornography" },
        Source { id: "hagezi", level: "anti.piracy", category: "piracy", url: "https://raw.githubusercontent.com/hagezi/dns-blocklists/main/wildcard/anti.piracy-onlydomains.txt", about: "piracy and warez sites" },
        Source { id: "blocklistproject", level: "piracy", category: "piracy", url: "https://raw.githubusercontent.com/blocklistproject/Lists/master/piracy.txt", about: "The Blocklist Project: piracy" },
        Source { id: "blocklistproject", level: "torrent", category: "piracy", url: "https://raw.githubusercontent.com/blocklistproject/Lists/master/torrent.txt", about: "The Blocklist Project: torrent trackers and indexes" },
        Source { id: "blocklistproject", level: "drugs", category: "drugs", url: "https://raw.githubusercontent.com/blocklistproject/Lists/master/drugs.txt", about: "drug marketplaces" },
        Source { id: "blocklistproject", level: "vaping", category: "drugs", url: "https://raw.githubusercontent.com/blocklistproject/Lists/master/vaping.txt", about: "vaping and e-cigarette shops" },
    ];
    assert(v@ =~= source_table());
    v
}

/// A kind of thing to block, and the lists turning it on enables.
#[derive(Debug, Clone, Copy)]
pub struct Category {
    pub key: &'static str,
    pub about: &'static str,
    pub sources: &'static [&'static str],
}

/// The categories, in the order they are shown.
pub open spec fn category_table() -> Seq<Category> {
    seq![
        Category { key: "ads", about: "advertising", sources: &["hagezi:pro"] },
        Category { key: "tracking", about: "trackers and analytics", sources: &["frogeye:multiparty", "frogeye:firstparty"] },
        Category { key: "phishing", about: "malware, phishing, scam, ransomware", sources: &["hagezi:tif"] },
        Category { key: "fake", about: "fake shops, fake streaming, fake support", sources: &["hagezi:fake"] },
        Category { key: "crypto", about: "cryptojacking and mining", sources: &["blocklistproject:crypto"] },
        Category { key: "dns-bypass", about: "DoH, VPN and proxy endpoints that route around filtering", sources: &["hagezi:doh"] },
        Category { key: "telemetry", about: "device and OS telemetry", sources: &["hagezi:native.winoffice", "hagezi:native.apple", "hagezi:native.samsung", "hagezi:native.xiaomi", "hagezi:native.amazon", "hagezi:native.tiktok"] },
        Category { key: "social", about: "social networks", sources: &["sinfonietta:social"] },
        Category { key: "gambling", about: "gambling and betting", sources: &["hagezi:gambling"] },
        Category { key: "porn", about: "pornography", sources: &["hagezi:nsfw"] },
        Category { key: "piracy", about: "piracy and torrents", sources: &["hagezi:anti.piracy"] },
        Category { key: "drugs", about: "drug and vaping shops", sources: &["blocklistproject:drugs"] },
    ]
}

/// The categories, as a list (`category_table`).
pub fn categories() -> (v: Vec<Category>)
    ensures
        v@ == category_table(),
{
    let v = vec![
        Category { key: "ads", about: "advertising", sources: &["hagezi:pro"] },
        Category { key: "tracking", about: "trackers and analytics", sources: &["frogeye:multiparty", "frogeye:firstparty"] },
        Category { key: "phishing", about: "malware, phishing, scam, ransomware", sources: &["hagezi:tif"] },
        Category { key: "fake", about: "fake shops, fake streaming, fake support", sources: &["hagezi:fake"] },
        Category { key: "crypto", about: "cryptojacking and mining", sources: &["blocklistproject:crypto"] },
        Category { key: "dns-bypass", about: "DoH, VPN and proxy endpoints that route around filtering", sources: &["hagezi:doh"] },
        Category { key: "telemetry", about: "device and OS telemetry", sources: &["hagezi:native.winoffice", "hagezi:native.apple", "hagezi:native.samsung", "hagezi:native.xiaomi", "hagezi:native.amazon", "hagezi:native.tiktok"] },
        Category { key: "social", about: "social networks", sources: &["sinfonietta:social"] },
        Category { key: "gambling", about: "gambling and betting", sources: &["hagezi:gambling"] },
        Category { key: "porn", about: "pornography", sources: &["hagezi:nsfw"] },
        Category { key: "piracy", about: "piracy and torrents", sources: &["hagezi:anti.piracy"] },
        Category { key: "drugs", about: "drug and vaping shops", sources: &["blocklistproject:drugs"] },
    ];
    assert(v@ =~= category_table());
    v
}

} // verus!
