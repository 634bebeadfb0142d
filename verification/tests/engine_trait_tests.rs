use rfheadless::Cookie;
use rfheadless::CookieParam;
use rfheadless::Engine;
use rfheadless::EngineConfig;
use rfheadless::Error;
use rfheadless::ScriptResult;
use rfheadless::TextSnapshot;

/// An engine that only stores cookies, for exercising the trait's helpers.
struct CookieJarEngine {
    cookies: Vec<Cookie>,
}

impl Engine for CookieJarEngine {
    fn new(_config: EngineConfig) -> Result<Self, Error> {
        Ok(CookieJarEngine { cookies: Vec::new() })
    }

    fn load_url(&mut self, _url: &str) -> Result<(), Error> {
        Ok(())
    }

    fn render_text_snapshot(&self) -> Result<TextSnapshot, Error> {
        Err(Error::RenderError("no document".to_string()))
    }

    fn render_png(&self) -> Result<Vec<u8>, Error> {
        Err(Error::RenderError("no document".to_string()))
    }

    fn evaluate_script(&mut self, _script: &str) -> Result<ScriptResult, Error> {
        Err(Error::ScriptError("no script host".to_string()))
    }

    fn evaluate_script_in_page(&mut self, script: &str) -> Result<ScriptResult, Error> {
        self.evaluate_script(script)
    }

    fn get_cookies(&self) -> Result<Vec<Cookie>, Error> {
        Ok(self.cookies.clone())
    }

    fn set_cookies(&mut self, cookies: Vec<CookieParam>) -> Result<(), Error> {
        for p in cookies {
            self.cookies.push(Cookie {
                name: p.name,
                value: p.value,
                domain: p.domain,
                path: p.path,
                expires: p.expires,
                size: None,
                http_only: p.http_only,
                secure: p.secure,
                same_site: p.same_site,
            });
        }
        Ok(())
    }

    fn delete_cookie(
        &mut self,
        name: &str,
        _url: Option<&str>,
        domain: Option<&str>,
        _path: Option<&str>,
    ) -> Result<(), Error> {
        self.cookies.retain(|c| {
            !(c.name == name && (domain.is_none() || c.domain.as_deref() == domain))
        });
        Ok(())
    }

    fn clear_cookies(&mut self) -> Result<(), Error> {
        self.cookies.clear();
        Ok(())
    }

    fn close(self) -> Result<(), Error> {
        Ok(())
    }
}

#[test]
fn set_and_get_cookie_simple() {
    let mut e = CookieJarEngine::new(EngineConfig::default()).unwrap();
    e.set_cookie_simple("sid", "abc", None, Some("example.com"), Some("/"), Some(99)).unwrap();
    let c = e.get_cookie_simple("sid").unwrap().unwrap();
    assert_eq!(c.value, "abc");
    assert_eq!(c.domain.as_deref(), Some("example.com"));
    assert_eq!(c.expires, Some(99));
    assert!(e.get_cookie_simple("other").unwrap().is_none());
}

#[test]
fn clear_cookies_for_one_domain_only() {
    let mut e = CookieJarEngine::new(EngineConfig::default()).unwrap();
    e.set_cookie_simple("a", "1", None, Some("one.example"), None, None).unwrap();
    e.set_cookie_simple("b", "2", None, Some("two.example"), None, None).unwrap();
    e.clear_cookies_for_domain("one.example").unwrap();
    assert!(e.get_cookie_simple("a").unwrap().is_none());
    assert!(e.get_cookie_simple("b").unwrap().is_some());
}
