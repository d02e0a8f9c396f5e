use stalzone_server_blocker::server::{
    ensure_user_tunnels, find_tunnels_file, infer_pool_region, load_servers,
    load_servers_from_entries, load_tunnel_entries, read_tunnels_content, TunnelsFile, UserTunnels,
};
use stalzone_server_blocker::tunnels::{
    entry_from_captures, format_tunnel_line, parse_tunnel_entries, tunnels_text, LineCaptures,
    TunnelEntry, TunnelError, DEFAULT_PORT,
};

fn entry(name: &str, ip: &str, port: u16, pool: Option<&str>) -> TunnelEntry {
    TunnelEntry {
        name: name.to_string(),
        ip: ip.to_string(),
        port,
        pool: pool.map(|p| p.to_string()),
    }
}

#[test]
fn parses_tunnel_line() {
    let entries = parse_tunnel_entries("MSK2-1 - 95.213.255.12\n").unwrap();
    assert_eq!(entries.len(), 1);
    assert_eq!(entries[0].name, "MSK2-1");
    assert_eq!(entries[0].ip, "95.213.255.12");
    assert_eq!(entries[0].port, DEFAULT_PORT);

    let servers = load_servers_from_entries(entries);
    assert_eq!(servers[0].pool, "MSK2");
    assert_eq!(servers[0].region, "RU");
}

#[test]
fn parses_tunnel_line_with_pool() {
    let entries =
        parse_tunnel_entries("SRVMGR-ACCESSOR-OFT-RU-7A - 176.114.88.147 @CLOUD-RU-7\n").unwrap();
    assert_eq!(entries[0].pool.as_deref(), Some("CLOUD-RU-7"));

    let servers = load_servers_from_entries(entries);
    assert_eq!(servers[0].pool, "CLOUD-RU-7");
}

#[test]
fn sorts_by_pool_then_name() {
    let entries = parse_tunnel_entries(
        "MSK2-2 - 1.1.1.1 @MSK2\nMSK1-1 - 2.2.2.2 @MSK1\nMSK2-1 - 3.3.3.3 @MSK2\n",
    )
    .unwrap();
    let servers = load_servers_from_entries(entries);
    assert_eq!(
        servers.iter().map(|s| s.name.as_str()).collect::<Vec<_>>(),
        vec!["MSK1-1", "MSK2-1", "MSK2-2"]
    );
}

#[test]
fn loads_embedded_tunnels() {
    let pools = [
        "MSK2", "MSK1", "EKB", "SMR", "RST", "NSK", "KRY", "KHB", "AST", "RIG", "VIL", "MNK", "TAS",
    ];
    let mut embedded = String::new();
    for (i, pool) in pools.iter().enumerate() {
        for n in 1..=4 {
            embedded.push_str(&format!("{pool}-{n} - 10.0.{i}.{n}\n"));
        }
    }

    let servers = load_servers(None, &embedded).unwrap();
    assert!(servers.len() >= 50);
    assert_eq!(servers.len(), 52);
    assert_eq!(servers[0].name, "AST-1");
    assert_eq!(servers[51].name, "VIL-4");
}

#[test]
fn a_found_file_goes_before_the_embedded_list() {
    let embedded = "NYC-1 - 1.1.1.1\n";
    let found = Some("LAX-1 - 2.2.2.2:80\n".to_string());
    let servers = load_servers(found.clone(), embedded).unwrap();
    assert_eq!(servers.len(), 1);
    assert_eq!(servers[0].name, "LAX-1");
    assert_eq!(servers[0].port, 80);
    assert_eq!(servers[0].region, "NA");
    assert_eq!(load_servers(None, embedded).unwrap()[0].name, "NYC-1");
    assert_eq!(load_tunnel_entries(found, embedded).unwrap()[0].ip, "2.2.2.2");
    assert_eq!(read_tunnels_content(None, embedded), embedded);
    assert_eq!(read_tunnels_content(Some(String::new()), embedded), "");
    assert_eq!(load_servers(Some(String::new()), embedded), Err(TunnelError::NoServers));
}

#[test]
fn parses_every_part_of_a_line() {
    let entries = parse_tunnel_entries(
        "\u{a0} EU East-1\t-\u{2003}10.0.0.1:443  @ Pool, with spaces  \r\n\r\n  A-10.0.0.2",
    )
    .unwrap();
    assert_eq!(
        entries,
        vec![
            entry("EU East-1", "10.0.0.1", 443, Some("Pool, with spaces")),
            entry("A", "10.0.0.2", DEFAULT_PORT, None),
        ]
    );
}

#[test]
fn the_shortest_name_is_taken() {
    let entries = parse_tunnel_entries("A - 1.1.1.1 @B - 2.2.2.2").unwrap();
    assert_eq!(entries, vec![entry("A", "1.1.1.1", DEFAULT_PORT, Some("B - 2.2.2.2"))]);
    let entries = parse_tunnel_entries("A - 1.1.1.1x - 2.2.2.2").unwrap();
    assert_eq!(entries, vec![entry("A - 1.1.1.1x", "2.2.2.2", DEFAULT_PORT, None)]);
}

#[test]
fn digits_of_other_scripts_are_digits_of_an_address_but_not_of_a_port() {
    let entries = parse_tunnel_entries("A - \u{661}.2.3.4").unwrap();
    assert_eq!(entries[0].ip, "\u{661}.2.3.4");
    assert_eq!(
        parse_tunnel_entries("A - 1.2.3.4:\u{661}"),
        Err(TunnelError::InvalidPort { line_no: 1 })
    );
}

#[test]
fn refuses_a_line_that_is_no_entry() {
    let error = parse_tunnel_entries("A - 1.1.1.1\n\n  no address here \n").unwrap_err();
    assert_eq!(
        error,
        TunnelError::InvalidLine { line_no: 3, line: "no address here".to_string() }
    );
    assert_eq!(error.message(), "неверная строка в tunnels.txt, 3: no address here");
    for line in [
        "- 1.1.1.1",
        "A - 1.1.1",
        "A - 1.1.1.1.1",
        "A - 1.1.1.1:",
        "A - 1.1.1.1:80:90",
        "A - 1.1.1.1@P",
        "A - 1.1.1.1 @",
        "A 1.1.1.1",
        "A - 1.1.1.1 P",
    ] {
        assert_eq!(
            parse_tunnel_entries(line),
            Err(TunnelError::InvalidLine { line_no: 1, line: line.to_string() })
        );
    }
}

#[test]
fn refuses_a_port_that_does_not_fit() {
    let error = parse_tunnel_entries("A - 1.1.1.1:65535\nB - 1.1.1.1:65536\n").unwrap_err();
    assert_eq!(error, TunnelError::InvalidPort { line_no: 2 });
    assert_eq!(error.message(), "неверный порт в строке 2");
    assert_eq!(parse_tunnel_entries("A - 1.1.1.1:00080").unwrap()[0].port, 80);
    assert_eq!(parse_tunnel_entries("A - 1.1.1.1:0").unwrap()[0].port, 0);
}

#[test]
fn refuses_a_list_without_entries() {
    for content in ["", "\n\n", "  \r\n\t"] {
        let error = parse_tunnel_entries(content).unwrap_err();
        assert_eq!(error, TunnelError::NoServers);
        assert_eq!(error.message(), "в tunnels.txt не найдено серверов");
    }
}

#[test]
fn groups_of_a_line_give_an_entry() {
    let groups = LineCaptures {
        name: " A ".to_string(),
        ip: "1.1.1.1".to_string(),
        port: Some("90".to_string()),
        pool: Some(" P ".to_string()),
    };
    assert_eq!(entry_from_captures(&groups), Some(entry("A", "1.1.1.1", 90, Some("P"))));
    let groups = LineCaptures { port: Some("70000".to_string()), ..groups };
    assert_eq!(entry_from_captures(&groups), None);
    let groups = LineCaptures { port: None, pool: None, ..groups };
    assert_eq!(entry_from_captures(&groups), Some(entry("A", "1.1.1.1", DEFAULT_PORT, None)));
}

#[test]
fn writes_an_entry() {
    assert_eq!(format_tunnel_line(&entry("A", "1.1.1.1", DEFAULT_PORT, None)), "A - 1.1.1.1");
    assert_eq!(format_tunnel_line(&entry("A", "1.1.1.1", 80, None)), "A - 1.1.1.1:80");
    assert_eq!(
        format_tunnel_line(&entry("A", "1.1.1.1", DEFAULT_PORT, Some("P"))),
        "A - 1.1.1.1 @P"
    );
    assert_eq!(format_tunnel_line(&entry("A", "1.1.1.1", 0, Some("P"))), "A - 1.1.1.1:0 @P");
}

#[test]
fn a_stored_list_reads_back() {
    let entries = vec![
        entry("MSK2-1", "95.213.255.12", DEFAULT_PORT, None),
        entry("SRVMGR-ACCESSOR-OFT-RU-7A", "176.114.88.147", 29451, Some("CLOUD-RU-7")),
    ];
    let text = tunnels_text(&entries);
    assert_eq!(
        text,
        "MSK2-1 - 95.213.255.12\nSRVMGR-ACCESSOR-OFT-RU-7A - 176.114.88.147:29451 @CLOUD-RU-7\n"
    );
    assert_eq!(parse_tunnel_entries(&text), Ok(entries));
    assert_eq!(tunnels_text(&Vec::new()), "");
}

#[test]
fn a_list_survives_being_stored() {
    let read = parse_tunnel_entries(" Ж-1 -1.1.1.1:5\t@ п 1 \n\nB - 2.2.2.2:29450").unwrap();
    let text = tunnels_text(&read);
    assert_eq!(text, "Ж-1 - 1.1.1.1:5 @п 1\nB - 2.2.2.2\n");
    assert_eq!(parse_tunnel_entries(&text), Ok(read));
}

#[test]
fn infers_pool_and_region() {
    for (name, pool, region) in [
        ("GAME-EU-3", "GAME-EU", "EU"),
        ("GAME-NA-1", "GAME-NA", "NA"),
        ("GAME-SEA-2", "GAME-SEA", "SEA"),
        ("WAW2-1", "WAW2", "EU"),
        ("WAW-1", "WAW", "EU"),
        ("NYC1", "NYC", "NA"),
        ("LAX", "LAX", "NA"),
        ("SYD-9", "SYD", "SEA"),
        ("MSK1-1", "MSK1", "RU"),
        ("TAS-1", "TAS", "RU"),
        ("MSK3-1-2", "MSK3-1", "UNK"),
        ("X", "X", "UNK"),
        ("-X", "", "UNK"),
        ("msk2-1", "msk2", "UNK"),
    ] {
        assert_eq!(infer_pool_region(name), (pool.to_string(), region.to_string()));
    }
}

#[test]
fn servers_alike_stay_in_the_order_of_the_list() {
    let entries = vec![
        entry("B", "3.3.3.3", 1, Some("P")),
        entry("A", "1.1.1.1", 1, Some("P")),
        entry("A", "2.2.2.2", 1, Some("P")),
        entry("Z", "4.4.4.4", 1, Some("O")),
    ];
    let servers = load_servers_from_entries(entries);
    let ips: Vec<&str> = servers.iter().map(|s| s.ip.as_str()).collect();
    assert_eq!(ips, vec!["4.4.4.4", "1.1.1.1", "2.2.2.2", "3.3.3.3"]);
}

#[test]
fn names_are_ordered_by_their_characters() {
    let entries = vec![
        entry("A-10", "1.1.1.1", 1, Some("P")),
        entry("A-2", "2.2.2.2", 1, Some("P")),
        entry("A", "3.3.3.3", 1, Some("P")),
        entry("\u{ffff}", "4.4.4.4", 1, Some("P")),
        entry("\u{10000}", "5.5.5.5", 1, Some("P")),
    ];
    let servers = load_servers_from_entries(entries);
    let ips: Vec<&str> = servers.iter().map(|s| s.ip.as_str()).collect();
    assert_eq!(ips, vec!["3.3.3.3", "1.1.1.1", "2.2.2.2", "4.4.4.4", "5.5.5.5"]);
}

#[test]
fn finds_the_tunnels_file() {
    assert_eq!(find_tunnels_file(Some(true), true), Some(TunnelsFile::Config));
    assert_eq!(find_tunnels_file(Some(true), false), Some(TunnelsFile::Config));
    assert_eq!(find_tunnels_file(Some(false), true), Some(TunnelsFile::Working));
    assert_eq!(find_tunnels_file(None, true), Some(TunnelsFile::Working));
    assert_eq!(find_tunnels_file(Some(false), false), None);
    assert_eq!(find_tunnels_file(None, false), None);
}

#[test]
fn provides_the_tunnels_file_of_the_user() {
    assert_eq!(ensure_user_tunnels(true, None), UserTunnels::Keep);
    assert_eq!(ensure_user_tunnels(true, Some(true)), UserTunnels::Keep);
    assert_eq!(ensure_user_tunnels(false, Some(true)), UserTunnels::Copy);
    assert_eq!(ensure_user_tunnels(false, Some(false)), UserTunnels::WriteEmbedded);
    assert_eq!(ensure_user_tunnels(false, None), UserTunnels::WriteEmbedded);
}
