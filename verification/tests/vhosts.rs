use boxedcat::stack::vhosts::{discover_projects, generate_apache_vhost, generate_nginx_vhost, ProjectEntry};

fn apache_expected(project_name: &str, root: &str, server_name: &str, port: u16, ssl_port: u16, ssl: bool) -> String {
    let mut vhost = format!(
        r#"# BoxedCat auto-generated vhost: {project_name}
<VirtualHost *:{port}>
    ServerName {server_name}
    DocumentRoot "{root}"

    <Directory "{root}">
        Options Indexes FollowSymLinks MultiViews
        AllowOverride All
        Require all granted
    </Directory>

    ErrorLog "logs/{project_name}-error.log"
    CustomLog "logs/{project_name}-access.log" common
</VirtualHost>
"#
    );
    if ssl {
        vhost += &format!(
            r#"
<VirtualHost *:{ssl_port}>
    ServerName {server_name}
    DocumentRoot "{root}"

    SSLEngine on
    SSLCertificateFile "conf/ssl/{project_name}.crt"
    SSLCertificateKeyFile "conf/ssl/{project_name}.key"

    <Directory "{root}">
        Options Indexes FollowSymLinks MultiViews
        AllowOverride All
        Require all granted
    </Directory>

    ErrorLog "logs/{project_name}-ssl-error.log"
    CustomLog "logs/{project_name}-ssl-access.log" common
</VirtualHost>
"#
        );
    }
    vhost
}

fn nginx_expected(project_name: &str, root: &str, server_name: &str, port: u16, ssl_port: u16, ssl: bool) -> String {
    let mut vhost = format!(
        r#"# BoxedCat auto-generated vhost: {project_name}
server {{
    listen {port};
    server_name {server_name};
    root {root};

    location / {{
        try_files $uri $uri/ =404;
        index index.php index.html index.htm;
    }}

    location ~ \.php$ {{
        fastcgi_pass 127.0.0.1:9000;
        fastcgi_index index.php;
        fastcgi_param SCRIPT_FILENAME $document_root$fastcgi_script_name;
        include fastcgi_params;
    }}

    access_log logs/{project_name}-access.log;
    error_log logs/{project_name}-error.log;
}}
"#
    );
    if ssl {
        vhost += &format!(
            r#"
server {{
    listen {ssl_port} ssl;
    server_name {server_name};
    root {root};

    ssl_certificate conf/ssl/{project_name}.crt;
    ssl_certificate_key conf/ssl/{project_name}.key;

    location / {{
        try_files $uri $uri/ =404;
        index index.php index.html index.htm;
    }}

    access_log logs/{project_name}-ssl-access.log;
    error_log logs/{project_name}-ssl-error.log;
}}
"#
        );
    }
    vhost
}

#[test]
fn apache_vhost_without_ssl() {
    let got = generate_apache_vhost("blog", "C:\\xampp\\www\\blog", "blog.test", 80, 443, false);
    assert_eq!(got, apache_expected("blog", "C:/xampp/www/blog", "blog.test", 80, 443, false));
    assert!(!got.contains("SSLEngine"));
}

#[test]
fn apache_vhost_with_ssl_adds_second_host() {
    let plain = generate_apache_vhost("shop", "/srv/www/shop", "shop.test", 8080, 8443, false);
    let got = generate_apache_vhost("shop", "/srv/www/shop", "shop.test", 8080, 8443, true);
    assert_eq!(got, apache_expected("shop", "/srv/www/shop", "shop.test", 8080, 8443, true));
    assert!(got.starts_with(&plain));
    assert!(got.contains("<VirtualHost *:8443>"));
}

#[test]
fn nginx_vhost_both_forms() {
    let plain = generate_nginx_vhost("api", "D:\\web\\api", "api.test", 0, 65535, false);
    assert_eq!(plain, nginx_expected("api", "D:/web/api", "api.test", 0, 65535, false));
    let ssl = generate_nginx_vhost("api", "D:\\web\\api", "api.test", 0, 65535, true);
    assert_eq!(ssl, nginx_expected("api", "D:/web/api", "api.test", 0, 65535, true));
    assert!(ssl.starts_with(&plain));
    assert!(ssl.contains("listen 65535 ssl;"));
}

fn entry(name: &str, is_dir: bool, has_index: bool) -> ProjectEntry {
    ProjectEntry { name: name.to_string(), path: format!("/www/{}", name), is_dir, has_index }
}

#[test]
fn discover_projects_sorts_and_skips() {
    let entries = vec![
        entry("zeta", true, false),
        entry(".git", true, true),
        entry("alpha", true, true),
        entry("readme.txt", false, false),
        entry("Beta", true, false),
    ];
    let projects = discover_projects(entries);
    let names: Vec<&str> = projects.iter().map(|p| p.name.as_str()).collect();
    assert_eq!(names, vec!["Beta", "alpha", "zeta"]);
    assert_eq!(projects[1].server_name, "alpha.test");
    assert_eq!(projects[1].path, "/www/alpha");
    assert!(projects[1].has_index);
    assert!(!projects[2].has_index);
}

#[test]
fn discover_projects_of_empty_root() {
    assert!(discover_projects(Vec::new()).is_empty());
}
