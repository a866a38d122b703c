// Hashes of passwords of many lengths in every format, as the system's
// `crypt` gives them.
const VECTORS: [(&str, [&str; 7]); 16] = [
    (
        "",
        [
            "$1$Ab3dEf9h$SXQf9J8Z8nCE8oPkPRKcQ0",
            "$5$rounds=1000$Zx9$Otcm4gyBkU6X8iJ6q3GSSo4iJqrcYp.oD.o2jote7sA",
            "$6$rounds=1000$0123456789abcdef$p7CpmX0THtH3.Cg4cDlA.ml4HG12H9uel9SGLKvv/7t.iqVksvRGRiyrwoyNTDGfmskOV8PWiWyCPzyQ/9Al2/",
            "$sha1$3$q$hbI.xjXrCDZn80xj.wJqQGdY/Mtv",
            "_1...ABCDv6Lupo4P4ho",
            "zz6dpSdr.LHZw",
            "$2b$04$abcdefghijklmnopqrstuubyCG3zY1GIXMyxfivm.ClDiInHzxjiq",
        ],
    ),
    (
        "!",
        [
            "$1$Ab3dEf9h$qRgJvsI2k8Zq5OIUWqJFR/",
            "$5$rounds=1000$Zx9$EyA1fVBmH83XmJf0LPXPpUqbw0HC9IHEcmLScWs23A.",
            "$6$rounds=1000$0123456789abcdef$3sUoOcpOiZ6aled1h9YqDdwSJo9QerWgv.b8znN.roRkftMoDXOEM3yAWWm7McD9D6/YqIwjiKeR/IxQPeNoL.",
            "$sha1$3$q$gavqSverLCy596h1Qs2IyM.2P9Tl",
            "_1...ABCDf.bmvLRkqJQ",
            "zzwt1PC5roZ2M",
            "$2b$04$abcdefghijklmnopqrstuu9hXIu9LEO8swZcvPaM7yb7QMEJE0f4e",
        ],
    ),
    (
        "!(/6=DK",
        [
            "$1$Ab3dEf9h$l4.Z6/q33KB3RC5z.9LV61",
            "$5$rounds=1000$Zx9$2Fwb5K5Qx.0Wbcok3vWAbBjCaR.9ScZpteLAASW5jDB",
            "$6$rounds=1000$0123456789abcdef$66RKtblWhprxjL8ZZmBRT4KlxmE0hdbB6oTokRt5bwoBpDJoR8CYVUpkrMJMiRSbtkFO4vl30.ENic6R5y3yf/",
            "$sha1$3$q$FZZ1QgMu0dbJSlbY18WgNipqCEo5",
            "_1...ABCD4qNWJ5e5HAg",
            "zzrzQya/emM92",
            "$2b$04$abcdefghijklmnopqrstuu/Zbq3kGsGMWFZrAjm0iianB54hkmGp.",
        ],
    ),
    (
        "!(/6=DKR",
        [
            "$1$Ab3dEf9h$K8aztTZDc6ggyvidvORv5/",
            "$5$rounds=1000$Zx9$RQG4vdbgkIg.Xq6AHnFaJSQ96z2ADG6F3IFt4fs9965",
            "$6$rounds=1000$0123456789abcdef$NZPo2OSZ.I0s2uZEVSwbzbWE1hTgCL48Cjp85KuMS0HSaq249bkWZX/B1avH7UiF1U.XwKScuTSCYsjRxKEBU1",
            "$sha1$3$q$49qsbmpJQj05eZfXo7S8cF6gXPYJ",
            "_1...ABCDITqZEMYVEQc",
            "zzl1Hu/vaMr/o",
            "$2b$04$abcdefghijklmnopqrstuunTWhkp5nIbXwsThlmF6upEaRJ/7Hg5C",
        ],
    ),
    (
        "!(/6=DKRY",
        [
            "$1$Ab3dEf9h$m3edBuwnS85YzNc993LSY1",
            "$5$rounds=1000$Zx9$RaclVFFzfGJrHOLWMZ1lYbizTU/USlMl4LHgSJRG342",
            "$6$rounds=1000$0123456789abcdef$GzlQ4hDS2pQ2Z9lFoTQf9//v4TgKTBnfy4je4eJXEkSRfIzSybhEUXcBprLeIiIHXjTc/3VFyzyvkNb4gzMP60",
            "$sha1$3$q$WBcpxQzCTvKWMPx.YFkmL50YKb84",
            "_1...ABCDWwYTzq1wPoA",
            "zzl1Hu/vaMr/o",
            "$2b$04$abcdefghijklmnopqrstuuOg0z7yWtkoqChpExHZdXZQVJFxEIcTu",
        ],
    ),
    (
        "!(/6=DKRY`gnu\")",
        [
            "$1$Ab3dEf9h$jKXUo10/iP9IZ09ZW.3s2/",
            "$5$rounds=1000$Zx9$9u9WB47WB8aqHuGrPqQx3JGW3ijrXStYAJFj0BUCaW3",
            "$6$rounds=1000$0123456789abcdef$PoVRs5xYEu6l22Rjg4KAcx4G21F.qdcxWg6qn/i4QBGAHifVrsd7LVGA.4qte02uHqT.yxg99p5w.Mg.a4q9h/",
            "$sha1$3$q$eGJhswkdAf/Saq2sxx2QMIF2pekg",
            "_1...ABCD7HiV6TpAPXw",
            "zzl1Hu/vaMr/o",
            "$2b$04$abcdefghijklmnopqrstuuq6X5NVS/SMjLriMDSx3HvsxCQnfuq3m",
        ],
    ),
    (
        "!(/6=DKRY`gnu\")0",
        [
            "$1$Ab3dEf9h$lz3Iyaoevp9Oebrbb1y2k/",
            "$5$rounds=1000$Zx9$X.gsPyEtI9EjA4ZohDAg2R6GjQMzx1yTKG2cw/fmuM5",
            "$6$rounds=1000$0123456789abcdef$sEn3GEV6aN/jsZwXJJHeBrQxs7H.e.TXU8p9fHgNogfeXUimHxECDFi1.PXHt1VA.UNgNaSryt48/xltWLLL4/",
            "$sha1$3$q$qeoXVr4lSmaNaKhJHrZsQFWxD8OX",
            "_1...ABCDnaXuRZvUexU",
            "zzl1Hu/vaMr/o",
            "$2b$04$abcdefghijklmnopqrstuuwPGS97XPSvjN/btCyIAy45Z9Ws3aYm.",
        ],
    ),
    (
        "!(/6=DKRY`gnu\")07",
        [
            "$1$Ab3dEf9h$.H0QBaB1ZS10oTSZj78130",
            "$5$rounds=1000$Zx9$WXfit12fcAfGsVO4gDjdeO6fzBm/aNrh9Y/CHa.5EjC",
            "$6$rounds=1000$0123456789abcdef$zLZFi2akFEsF8x0OnOvxAWRIqS.PAWypIwgSWm16k5ixeNW6jwqqIW3zOXQKr4g7V6zTMRT7cQ3UWiH9yX10i/",
            "$sha1$3$q$oNfcoKGC/PRgqW2j5mO6uj4bW0tW",
            "_1...ABCDIVElfJ9P9v.",
            "zzl1Hu/vaMr/o",
            "$2b$04$abcdefghijklmnopqrstuu8v2rEFC5j4Og2XqD1SLRrKJT9QdXrfu",
        ],
    ),
    (
        "!(/6=DKRY`gnu\")07>ELSZahov#*18?",
        [
            "$1$Ab3dEf9h$5n9zvohjcNLbxrXgJoEfz0",
            "$5$rounds=1000$Zx9$kVsZ34RMfU5arq666rlAoZzmPHj3gOxFVd5YKlecwq3",
            "$6$rounds=1000$0123456789abcdef$Mbutrqn67HzqtDTTuV5N5QwHU6wk21rncXiglu9WGhzQpHmr0UYN49LWUEtj660mkw7QfjneQDEUYqJpYyhX60",
            "$sha1$3$q$GITOgn7hNoljQJon4pN8Gq79ddMF",
            "_1...ABCDqQExwXPFXDA",
            "zzl1Hu/vaMr/o",
            "$2b$04$abcdefghijklmnopqrstuus4gUDy4VLJ.z/nh2ztQ9Yln.8QKZUI2",
        ],
    ),
    (
        "!(/6=DKRY`gnu\")07>ELSZahov#*18?F",
        [
            "$1$Ab3dEf9h$rdBSqof4Y6s/o2Nj1Q30./",
            "$5$rounds=1000$Zx9$ISUVn5AC4pgIYcMq50z83jHNXUN9Kcj8OSUHutMZuG3",
            "$6$rounds=1000$0123456789abcdef$RYYS8T0MVXgXjL6wZ10TeGUT4beHslxvsjkv7Q.KScT6mm2jVfafrozbPyYZalWmfqcQxweKg3uWnP8N0wXuw0",
            "$sha1$3$q$fmF9GzRnOc97msyttgu7zZMWhkql",
            "_1...ABCDzF9pOLnsOzA",
            "zzl1Hu/vaMr/o",
            "$2b$04$abcdefghijklmnopqrstuukCJGqOLpyvbv41i/nokArPGA/Gkw.wO",
        ],
    ),
    (
        "!(/6=DKRY`gnu\")07>ELSZahov#*18?FM",
        [
            "$1$Ab3dEf9h$CsIFGkddi0LDEkEZ9H1FX.",
            "$5$rounds=1000$Zx9$AohppFVDEQ2a5WsxLuBWzrZ2CrP.k6ApGh84QHM6Zb6",
            "$6$rounds=1000$0123456789abcdef$k2sA.teEPEtJhsRfmG6G3oc3PI01zIdRPRwzgClJ.5L7W4KEaXuBHbOV9724wrIkamv3ua06d8RGMx6ok5hWK/",
            "$sha1$3$q$8pJTIv.BvDqzAIy4aboXXKKwx7LK",
            "_1...ABCDvav6Pn324Fo",
            "zzl1Hu/vaMr/o",
            "$2b$04$abcdefghijklmnopqrstuuO/Vy/uICOMiyJgZIScmDXpBbVwClTAq",
        ],
    ),
    (
        "!(/6=DKRY`gnu\")07>ELSZahov#*18?FMT[bipw$+29@GNU\\cjqx%,3:AHOV]dk",
        [
            "$1$Ab3dEf9h$x09DmlzzLDAxaMV95pIyJ1",
            "$5$rounds=1000$Zx9$/wIirCmWsjnJLxqWFyG4qAWDoA7Zv5hIegD73RSiLk1",
            "$6$rounds=1000$0123456789abcdef$mq/9xu.0b32KJNposWfUAFqkqv.Ph9Ab0yy9WfUqruXtDEpi68Qse4saiKGKjZdMMAbsIEft5AcxbWCK1hZSn0",
            "$sha1$3$q$eRWhzdzL6qy2v7gYxul7kggGqmXt",
            "_1...ABCDNcWNqwLVZdk",
            "zzl1Hu/vaMr/o",
            "$2b$04$abcdefghijklmnopqrstuuwY21n6NOKATbkqIo7M9GoHMy8x0yn3u",
        ],
    ),
    (
        "!(/6=DKRY`gnu\")07>ELSZahov#*18?FMT[bipw$+29@GNU\\cjqx%,3:AHOV]dkr",
        [
            "$1$Ab3dEf9h$DJ3UyzfTV8TVjUbgNyS1R.",
            "$5$rounds=1000$Zx9$yLydwTlXF96b1F/OFx/8WfrqNR5iTxvNQKAyxAMJZT5",
            "$6$rounds=1000$0123456789abcdef$Fu4LiuvmDzVkexTMn3vSo4vDZORGwUUPkdgqu5J46xzkHnUDxECRc5bkzxIBRq0VcAcuyrvEudLVWG6BHfpO70",
            "$sha1$3$q$4g5eezowTlaeB8BcexkMya/dcSPE",
            "_1...ABCDRhLqQF4c6o2",
            "zzl1Hu/vaMr/o",
            "$2b$04$abcdefghijklmnopqrstuu.M7zDVT.5/3LAHTFZfKvybEzPnto4bS",
        ],
    ),
    (
        "!(/6=DKRY`gnu\")07>ELSZahov#*18?FMT[bipw$+29@GNU\\cjqx%,3:AHOV]dkry",
        [
            "$1$Ab3dEf9h$HOSj2JAfQMucWrjEy2lxW.",
            "$5$rounds=1000$Zx9$gCl3e5SAwcwtQMacga.H50l7Hq0npiS4vP0rcxmUuHA",
            "$6$rounds=1000$0123456789abcdef$iFe/xeFBwUpXyXemyonvzKF3v.G3lXm4XV8djm5leRbCtBvDYzI0EJgUZ53W6OzzAdDZQ/utaHjSfnPRceYjK.",
            "$sha1$3$q$Y0YEJOm6dUrhZ8Y402X9PXBn0//O",
            "_1...ABCDzRhkeiG53qo",
            "zzl1Hu/vaMr/o",
            "$2b$04$abcdefghijklmnopqrstuu9iboZVjqw5wCbpoLlQDt2CfaBIeFEMa",
        ],
    ),
    (
        "!(/6=DKRY`gnu\")07>ELSZahov#*18?FMT[bipw$+29@GNU\\cjqx%,3:AHOV]dkry&-4;BIPW^elsz'.5<CJQX_fmt!(/6=DKRY`",
        [
            "$1$Ab3dEf9h$UouKVfS1mPJC9/d7qns000",
            "$5$rounds=1000$Zx9$HlZgOwpJhV3Sm1bLWOVaoJegCsNwVJKXvGNh1gxfYo8",
            "$6$rounds=1000$0123456789abcdef$hWqc4ZnJrlpNIQK3mid.7Tv8aSWWitKpEHQhgC..Leupkkair/EnUMxOwIjr0bCxpF3I3cu0q7H0jjrVfAVqx.",
            "$sha1$3$q$8z0KwqxyOM.rii0tL9XHXwM1MVmS",
            "_1...ABCDff2GJlct7ak",
            "zzl1Hu/vaMr/o",
            "$2b$04$abcdefghijklmnopqrstuuQ82V0iPuKGaT0DgkNzQpAN11jEP3y6.",
        ],
    ),
    (
        "!(/6=DKRY`gnu\")07>ELSZahov#*18?FMT[bipw$+29@GNU\\cjqx%,3:AHOV]dkry&-4;BIPW^elsz'.5<CJQX_fmt!(/6=DKRY`gnu\")07>ELSZahov#*18?FMT[bipw",
        [
            "$1$Ab3dEf9h$os2FWgI6C7fcjmKsTCbDt0",
            "$5$rounds=1000$Zx9$.1c.0nG9P/EwBsUIPq1Do8pPDt2TqdMNn/YeSGJH9fD",
            "$6$rounds=1000$0123456789abcdef$sKhOu/3K.t1fnTRGjpbezua/gVFgD9QWTal9Wia0vPxQxILFP2EIfuCOqMkMHzrG5AujT2qmG6HGZ5GWFtw6F/",
            "$sha1$3$q$CIGpN4xQkvk7y10nnEhKaL3BJLLN",
            "_1...ABCDOBBcANbKMA.",
            "zzl1Hu/vaMr/o",
            "$2b$04$abcdefghijklmnopqrstuuQ82V0iPuKGaT0DgkNzQpAN11jEP3y6.",
        ],
    ),
];

#[test]
fn passwords_of_many_lengths() {
    for (pass, hashes) in VECTORS {
        for text in hashes {
            let made = crypt3_rs::unix::crypt(pass.as_bytes(), text).unwrap();
            assert_eq!(made.as_str(), text);
            assert_eq!(crypt3_rs::unix::verify(pass.as_bytes(), text), true);
        }
    }
}

#[test]
fn a_longer_password_is_another_password() {
    for i in 1..VECTORS.len() {
        let (pass, _) = VECTORS[i];
        let (_, shorter) = VECTORS[i - 1];
        for text in shorter {
            let same = crypt3_rs::unix::verify(pass.as_bytes(), text);
            // Traditional DES reads eight bytes and bcrypt 72 at most.
            let cut = (text.len() == 13 && i > 3) || (text.starts_with("$2b$") && i == VECTORS.len() - 1);
            assert_eq!(same, cut);
        }
    }
}
