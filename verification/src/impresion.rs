//! Las líneas con que se dibuja el árbol girado 90°: derecha arriba, izquierda abajo.
use vstd::prelude::*;
use crate::modelo::{
    Nodo, altura_real, contenido, en_orden, ordenado, lema_en_orden_en_contenido,
};

verus! {

/// Una línea del dibujo: la profundidad del nodo (que da la sangría) y su libro.
pub struct Linea {
    pub nivel: usize,
    pub isbn: u32,
    pub titulo: String,
}

/// Las líneas del dibujo de `t` cuando su raíz está en el nivel `nivel`: primero las del
/// subárbol derecho, luego la de la raíz y al final las del subárbol izquierdo.
pub open spec fn lineas(t: Option<Box<Nodo>>, nivel: int) -> Seq<Linea>
    decreases t,
{
    match t {
        None => Seq::empty(),
        Some(n) => lineas(n.derecho, nivel + 1).push(
            Linea { nivel: nivel as usize, isbn: n.libro.isbn, titulo: n.libro.titulo },
        ) + lineas(n.izquierdo, nivel + 1),
    }
}

/// La profundidad a la que el camino de búsqueda de `isbn` desde la raíz de `t` encuentra
/// ese ISBN: 0 en la raíz, uno más por cada paso a un hijo.
pub open spec fn profundidad(t: Option<Box<Nodo>>, isbn: u32) -> int
    decreases t,
{
    match t {
        None => 0,
        Some(n) => if isbn == n.libro.isbn {
            0
        } else if isbn < n.libro.isbn {
            1 + profundidad(n.izquierdo, isbn)
        } else {
            1 + profundidad(n.derecho, isbn)
        },
    }
}

/// Las líneas `s` dan, en orden, los libros de `t` del último al primero del recorrido en
/// orden: una línea por libro, con su ISBN y su título.
pub open spec fn recorrido_inverso(s: Seq<Linea>, t: Option<Box<Nodo>>) -> bool {
    &&& s.len() == en_orden(t).len()
    &&& forall|i: int|
        #![trigger s[i]]
        0 <= i < s.len() ==> {
            &&& s[i].isbn == en_orden(t).reverse()[i].isbn
            &&& s[i].titulo == en_orden(t).reverse()[i].titulo
        }
}

/// En cada línea de `s`, la sangría es `nivel` más la profundidad a la que el camino de
/// búsqueda de `t` encuentra su ISBN.
pub open spec fn sangria_por_profundidad(s: Seq<Linea>, t: Option<Box<Nodo>>, nivel: int) -> bool {
    forall|i: int| #![trigger s[i]] 0 <= i < s.len() ==> s[i].nivel == nivel + profundidad(t, s[i].isbn)
}

/// El dibujo tiene una línea por libro del árbol, y los libros aparecen en el orden inverso
/// al recorrido en orden: de derecha a izquierda, de modo que en un árbol ordenado los ISBN
/// bajan de arriba abajo.
pub proof fn ley_lineas_recorrido_inverso(t: Option<Box<Nodo>>, nivel: int)
    ensures
        recorrido_inverso(lineas(t, nivel), t),
    decreases t,
{
    match t {
        None => {
            assert(lineas(t, nivel).len() == 0);
            assert(en_orden(t).len() == 0);
            assert(recorrido_inverso(lineas(t, nivel), t));
        },
        Some(n) => {
            ley_lineas_recorrido_inverso(n.derecho, nivel + 1);
            ley_lineas_recorrido_inverso(n.izquierdo, nivel + 1);
            let d = lineas(n.derecho, nivel + 1);
            let iz = lineas(n.izquierdo, nivel + 1);
            let a = en_orden(n.izquierdo);
            let b = en_orden(n.derecho);
            let s = en_orden(t);
            let l = lineas(t, nivel);
            assert(s == a.push(n.libro) + b);
            assert(s.len() == a.len() + 1 + b.len());
            assert forall|i: int| #![trigger l[i]] 0 <= i < l.len() implies {
                &&& l[i].isbn == s.reverse()[i].isbn
                &&& l[i].titulo == s.reverse()[i].titulo
            } by {
                assert(s.reverse()[i] == s[s.len() - 1 - i]);
                if i < d.len() {
                    assert(l[i] == d[i]);
                    assert(s[s.len() - 1 - i] == b[b.len() - 1 - i]);
                    assert(d[i].isbn == b.reverse()[i].isbn);
                } else if i == d.len() {
                    assert(s[s.len() - 1 - i] == n.libro);
                } else {
                    let j = i - d.len() - 1;
                    assert(l[i] == iz[j]);
                    assert(s[s.len() - 1 - i] == a[a.len() - 1 - j]);
                    assert(iz[j].isbn == a.reverse()[j].isbn);
                }
            }
            assert(l.len() == s.len());
            assert(recorrido_inverso(l, t));
        },
    }
}

/// En un árbol ordenado, la sangría de cada línea es el nivel de la raíz más la
/// profundidad a la que el camino de búsqueda encuentra su ISBN.
pub proof fn ley_nivel_es_la_profundidad(t: Option<Box<Nodo>>, nivel: int)
    requires
        ordenado(t),
        0 <= nivel,
        nivel + altura_real(t) <= usize::MAX,
    ensures
        sangria_por_profundidad(lineas(t, nivel), t, nivel),
    decreases t,
{
    match t {
        None => {},
        Some(n) => {
            ley_nivel_es_la_profundidad(n.derecho, nivel + 1);
            ley_nivel_es_la_profundidad(n.izquierdo, nivel + 1);
            ley_lineas_recorrido_inverso(n.derecho, nivel + 1);
            ley_lineas_recorrido_inverso(n.izquierdo, nivel + 1);
            lema_en_orden_en_contenido(n.derecho);
            lema_en_orden_en_contenido(n.izquierdo);
            let d = lineas(n.derecho, nivel + 1);
            let iz = lineas(n.izquierdo, nivel + 1);
            let a = en_orden(n.izquierdo);
            let b = en_orden(n.derecho);
            let l = lineas(t, nivel);
            assert forall|i: int| #![trigger l[i]] 0 <= i < l.len() implies l[i].nivel == nivel
                + profundidad(t, l[i].isbn) by {
                if i < d.len() {
                    assert(l[i] == d[i]);
                    assert(d[i].isbn == b.reverse()[i].isbn);
                    assert(b.reverse()[i] == b[b.len() - 1 - i]);
                    assert(contenido(n.derecho).contains_key(b[b.len() - 1 - i].isbn));
                    assert(d[i].isbn > n.libro.isbn);
                } else if i == d.len() {
                    assert(l[i].isbn == n.libro.isbn);
                } else {
                    let j = i - d.len() - 1;
                    assert(l[i] == iz[j]);
                    assert(iz[j].isbn == a.reverse()[j].isbn);
                    assert(a.reverse()[j] == a[a.len() - 1 - j]);
                    assert(contenido(n.izquierdo).contains_key(a[a.len() - 1 - j].isbn));
                    assert(iz[j].isbn < n.libro.isbn);
                }
            }
        },
    }
}

/// Añade a `salida` las líneas del dibujo de `nodo` con su raíz en el nivel `nivel`.
pub fn agregar_lineas(nodo: &Option<Box<Nodo>>, nivel: usize, salida: &mut Vec<Linea>)
    requires
        nivel + altura_real(*nodo) <= usize::MAX,
    ensures
        final(salida)@ == old(salida)@ + lineas(*nodo, nivel as int),
        recorrido_inverso(
            final(salida)@.subrange(old(salida)@.len() as int, final(salida)@.len() as int),
            *nodo,
        ),
        ordenado(*nodo) ==> sangria_por_profundidad(
            final(salida)@.subrange(old(salida)@.len() as int, final(salida)@.len() as int),
            *nodo,
            nivel as int,
        ),
    decreases *nodo,
{
    proof {
        ley_lineas_recorrido_inverso(*nodo, nivel as int);
        if ordenado(*nodo) {
            ley_nivel_es_la_profundidad(*nodo, nivel as int);
        }
    }
    if let Some(n) = nodo {
        let ghost antes = salida@;
        agregar_lineas(&n.derecho, nivel + 1, salida);
        salida.push(Linea { nivel, isbn: n.libro.isbn, titulo: n.libro.titulo.clone() });
        agregar_lineas(&n.izquierdo, nivel + 1, salida);
        proof {
            let l = Linea { nivel: nivel, isbn: n.libro.isbn, titulo: n.libro.titulo };
            assert(salida@ =~= antes + (lineas(n.derecho, nivel + 1).push(l) + lineas(
                n.izquierdo,
                nivel + 1,
            )));
            assert(salida@.subrange(antes.len() as int, salida@.len() as int) =~= lineas(
                *nodo,
                nivel as int,
            ));
        }
    } else {
        proof {
            assert(salida@ =~= old(salida)@ + lineas(*nodo, nivel as int));
            assert(salida@.subrange(old(salida)@.len() as int, salida@.len() as int) =~= lineas(
                *nodo,
                nivel as int,
            ));
        }
    }
}

/// Las líneas del dibujo de `nodo` con su raíz en el nivel `nivel`, en el orden en que se
/// imprimen.
pub fn lineas_de_impresion(nodo: &Option<Box<Nodo>>, nivel: usize) -> (r: Vec<Linea>)
    requires
        nivel + altura_real(*nodo) <= usize::MAX,
    ensures
        r@ == lineas(*nodo, nivel as int),
        recorrido_inverso(r@, *nodo),
        ordenado(*nodo) ==> sangria_por_profundidad(r@, *nodo, nivel as int),
{
    proof {
        ley_lineas_recorrido_inverso(*nodo, nivel as int);
        if ordenado(*nodo) {
            ley_nivel_es_la_profundidad(*nodo, nivel as int);
        }
    }
    let mut salida: Vec<Linea> = Vec::new();
    agregar_lineas(nodo, nivel, &mut salida);
    proof {
        assert(salida@ =~= lineas(*nodo, nivel as int));
    }
    salida
}

} // verus!
